use vstd::prelude::*;

use crate::error::EngineError;

verus! {

/// A row chosen by the merge: its primary key, the source it comes from (a
/// higher index is a more recent source) and its position in that source.
#[derive(Debug, Clone, Copy, PartialEq, Eq, Structural)]
pub struct RowRef {
    pub key: u64,
    pub source: usize,
    pub row: usize,
}

/// Keys in ascending order, none repeated.
pub open spec fn strictly_sorted(keys: Seq<u64>) -> bool {
    forall|i: int, j: int| 0 <= i < j < keys.len() ==> keys[i] < keys[j]
}

/// The rows of source number `source`, in scan order.
pub open spec fn rows_of(keys: Seq<u64>, source: nat) -> Seq<RowRef> {
    Seq::new(keys.len(), |i: int| RowRef { key: keys[i], source: source as usize, row: i as usize })
}

/// Merges the rows of an older and a newer input by key. Where both hold a
/// key, the newer row replaces the older one.
pub open spec fn merge_two(older: Seq<RowRef>, newer: Seq<RowRef>) -> Seq<RowRef>
    decreases older.len() + newer.len(),
{
    if older.len() == 0 {
        newer
    } else if newer.len() == 0 {
        older
    } else if older[0].key < newer[0].key {
        seq![older[0]] + merge_two(older.drop_first(), newer)
    } else if newer[0].key < older[0].key {
        seq![newer[0]] + merge_two(older, newer.drop_first())
    } else {
        seq![newer[0]] + merge_two(older.drop_first(), newer.drop_first())
    }
}

/// Merges all sources, from the oldest (index 0) to the most recent.
pub open spec fn merge_all(sources: Seq<Seq<u64>>) -> Seq<RowRef>
    decreases sources.len(),
{
    if sources.len() == 0 {
        Seq::empty()
    } else {
        merge_two(
            merge_all(sources.drop_last()),
            rows_of(sources.last(), (sources.len() - 1) as nat),
        )
    }
}

pub open spec fn views_of(sources: Seq<Vec<u64>>) -> Seq<Seq<u64>> {
    sources.map_values(|v: Vec<u64>| v@)
}

pub fn is_strictly_sorted(keys: &Vec<u64>) -> (r: bool)
    ensures
        r == strictly_sorted(keys@),
{
    let n = keys.len();
    if n == 0 {
        return true;
    }
    let mut k: usize = 1;
    while k < n
        invariant
            1 <= k <= n,
            n == keys@.len(),
            forall|i: int, j: int| 0 <= i < j < k ==> keys@[i] < keys@[j],
        decreases n - k,
    {
        if keys[k - 1] >= keys[k] {
            return false;
        }
        proof {
            assert forall|i: int, j: int| 0 <= i < j < k + 1 implies keys@[i] < keys@[j] by {
                if j == k && i < k - 1 {
                    assert(keys@[i] < keys@[k - 1]);
                }
            }
        }
        k += 1;
    }
    true
}

/// The rows of source number `source`, in scan order.
pub fn rows_from(keys: &Vec<u64>, source: usize) -> (r: Vec<RowRef>)
    ensures
        r@ == rows_of(keys@, source as nat),
{
    let mut out: Vec<RowRef> = Vec::new();
    let mut i: usize = 0;
    while i < keys.len()
        invariant
            i <= keys@.len(),
            out@ == rows_of(keys@, source as nat).subrange(0, i as int),
        decreases keys@.len() - i,
    {
        out.push(RowRef { key: keys[i], source, row: i });
        proof {
            assert(out@ =~= rows_of(keys@, source as nat).subrange(0, i + 1));
        }
        i += 1;
    }
    assert(out@ =~= rows_of(keys@, source as nat));
    out
}

proof fn lemma_merge_step(older: Seq<RowRef>, newer: Seq<RowRef>, i: int, j: int)
    requires
        0 <= i < older.len(),
        0 <= j < newer.len(),
    ensures
        older.subrange(i, older.len() as int).drop_first() == older.subrange(i + 1, older.len() as int),
        newer.subrange(j, newer.len() as int).drop_first() == newer.subrange(j + 1, newer.len() as int),
        older.subrange(i, older.len() as int)[0] == older[i],
        newer.subrange(j, newer.len() as int)[0] == newer[j],
{
    assert(older.subrange(i, older.len() as int).drop_first() =~= older.subrange(i + 1, older.len() as int));
    assert(newer.subrange(j, newer.len() as int).drop_first() =~= newer.subrange(j + 1, newer.len() as int));
}

/// Merges an older and a newer run of rows by key; on equal keys the newer row wins.
pub fn merge_rows(older: &Vec<RowRef>, newer: &Vec<RowRef>) -> (r: Vec<RowRef>)
    ensures
        r@ == merge_two(older@, newer@),
{
    let na = older.len();
    let nb = newer.len();
    let ghost a = older@;
    let ghost b = newer@;
    let mut out: Vec<RowRef> = Vec::new();
    let mut i: usize = 0;
    let mut j: usize = 0;
    proof {
        assert(a.subrange(0, na as int) =~= a);
        assert(b.subrange(0, nb as int) =~= b);
        assert(out@ + merge_two(a, b) =~= merge_two(a, b));
    }
    while i < na && j < nb
        invariant
            i <= na,
            j <= nb,
            na == a.len(),
            nb == b.len(),
            a == older@,
            b == newer@,
            out@ + merge_two(a.subrange(i as int, na as int), b.subrange(j as int, nb as int))
                == merge_two(a, b),
        decreases na - i + nb - j,
    {
        proof {
            lemma_merge_step(a, b, i as int, j as int);
        }
        let x = older[i];
        let y = newer[j];
        let ghost rest = merge_two(a.subrange(i as int, na as int), b.subrange(j as int, nb as int));
        if x.key < y.key {
            out.push(x);
            i += 1;
        } else if y.key < x.key {
            out.push(y);
            j += 1;
        } else {
            out.push(y);
            i += 1;
            j += 1;
        }
        proof {
            let tail = merge_two(a.subrange(i as int, na as int), b.subrange(j as int, nb as int));
            assert(rest == seq![out@.last()] + tail);
            assert(out@ + tail =~= out@.drop_last() + rest);
        }
    }
    proof {
        let tail_a = a.subrange(i as int, na as int);
        let tail_b = b.subrange(j as int, nb as int);
        if i == na {
            assert(tail_a.len() == 0);
            assert(out@ + tail_a + tail_b =~= out@ + merge_two(tail_a, tail_b));
        } else {
            assert(tail_b.len() == 0);
            assert(out@ + tail_a + tail_b =~= out@ + merge_two(tail_a, tail_b));
        }
    }
    while i < na
        invariant
            i == na || j == nb,
            i <= na,
            j <= nb,
            na == a.len(),
            nb == b.len(),
            a == older@,
            b == newer@,
            out@ + a.subrange(i as int, na as int) + b.subrange(j as int, nb as int) == merge_two(
                older@,
                newer@,
            ),
        decreases na - i,
    {
        let ghost before = out@;
        out.push(older[i]);
        proof {
            assert(out@ + a.subrange(i + 1, na as int) =~= before + a.subrange(i as int, na as int));
        }
        i += 1;
    }
    proof {
        assert(out@ + b.subrange(j as int, nb as int) =~= out@ + a.subrange(i as int, na as int) + b.subrange(j as int, nb as int));
    }
    while j < nb
        invariant
            j <= nb,
            nb == b.len(),
            b == newer@,
            out@ + b.subrange(j as int, nb as int) == merge_two(older@, newer@),
        decreases nb - j,
    {
        let ghost before = out@;
        out.push(newer[j]);
        proof {
            assert(out@ + b.subrange(j + 1, nb as int) =~= before + b.subrange(j as int, nb as int));
        }
        j += 1;
    }
    proof {
        assert(out@ =~= out@ + b.subrange(nb as int, nb as int));
    }
    out
}

/// Merges sorted row sources, given oldest first, into one run of winning
/// rows in key order; sources are merged pairwise by halves, so the work is
/// the number of rows times the logarithm of the number of sources. A source
/// whose keys are not strictly ascending (out of order, or a key twice) is a
/// data error, and nothing is merged.
pub fn merge_sources(sources: &Vec<Vec<u64>>) -> (r: Result<Vec<RowRef>, EngineError>)
    ensures
        r is Ok <==> forall|s: int| 0 <= s < sources@.len() ==> strictly_sorted(#[trigger] sources@[s]@),
        r is Err ==> r == Err::<Vec<RowRef>, EngineError>(EngineError::ConfigurationError),
        r is Ok ==> r->Ok_0@ == merge_all(views_of(sources@)),
        r is Ok ==> strictly_sorted(keys_of(r->Ok_0@)),
{
    let n = sources.len();
    let mut k: usize = 0;
    while k < n
        invariant
            k <= n,
            n == sources@.len(),
            forall|s: int| 0 <= s < k ==> strictly_sorted(#[trigger] sources@[s]@),
        decreases n - k,
    {
        if !is_strictly_sorted(&sources[k]) {
            return Err(EngineError::ConfigurationError);
        }
        k += 1;
    }
    let ghost views = views_of(sources@);
    let merged = merge_range(sources, 0, n);
    proof {
        lemma_merge_all_is_span(views);
        assert forall|s: int| 0 <= s < views.len() implies strictly_sorted(#[trigger] views[s]) by {
            assert(views[s] == sources@[s]@);
        }
        lemma_merge_all_sorted(views);
    }
    Ok(merged)
}

/// Where two runs hold the same keys in the same order, the newer run replaces
/// the older one whole.
pub proof fn lemma_merge_same_keys(older: Seq<RowRef>, newer: Seq<RowRef>)
    requires
        older.len() == newer.len(),
        forall|i: int| 0 <= i < older.len() ==> older[i].key == newer[i].key,
    ensures
        merge_two(older, newer) == newer,
    decreases older.len(),
{
    if older.len() > 0 {
        let a = older.drop_first();
        let b = newer.drop_first();
        assert forall|i: int| 0 <= i < a.len() implies a[i].key == b[i].key by {
            assert(older[i + 1].key == newer[i + 1].key);
        }
        lemma_merge_same_keys(a, b);
        assert(seq![newer[0]] + b =~= newer);
    }
}

/// A merged row without its source tag: its key and its position.
pub open spec fn key_and_row(r: RowRef) -> (u64, usize) {
    (r.key, r.row)
}

/// Merging a source with a duplicate of itself gives the rows that merging it
/// alone gives: the same keys, in the same order, from the same positions.
/// Only the source tag differs, since the duplicate is the more recent one.
pub proof fn lemma_merge_duplicate_source(keys: Seq<u64>)
    ensures
        merge_all(seq![keys, keys]).map_values(|r: RowRef| key_and_row(r)) == merge_all(
            seq![keys],
        ).map_values(|r: RowRef| key_and_row(r)),
{
    let one = seq![keys];
    let two = seq![keys, keys];
    assert(one.drop_last() =~= Seq::<Seq<u64>>::empty());
    assert(two.drop_last() =~= one);
    assert(one.last() == keys);
    assert(two.last() == keys);
    assert(merge_all(Seq::<Seq<u64>>::empty()) == Seq::<RowRef>::empty());
    assert(merge_all(one) == merge_two(Seq::empty(), rows_of(keys, 0)));
    assert(merge_all(one) == rows_of(keys, 0));
    lemma_merge_same_keys(rows_of(keys, 0), rows_of(keys, 1));
    assert(merge_all(two) == rows_of(keys, 1));
    assert(rows_of(keys, 1).map_values(|r: RowRef| key_and_row(r)) =~= rows_of(keys, 0).map_values(
        |r: RowRef| key_and_row(r),
    ));
}

pub open spec fn keys_of(rows: Seq<RowRef>) -> Seq<u64> {
    rows.map_values(|r: RowRef| r.key)
}

/// Every key of the run is above `k`.
pub open spec fn keys_above(rows: Seq<RowRef>, k: u64) -> bool {
    forall|i: int| 0 <= i < rows.len() ==> rows[i].key > k
}

proof fn lemma_merge_keys_above(older: Seq<RowRef>, newer: Seq<RowRef>, k: u64)
    requires
        keys_above(older, k),
        keys_above(newer, k),
    ensures
        keys_above(merge_two(older, newer), k),
    decreases older.len() + newer.len(),
{
    if older.len() > 0 && newer.len() > 0 {
        let a = older.drop_first();
        let b = newer.drop_first();
        assert(keys_above(a, k));
        assert(keys_above(b, k));
        if older[0].key < newer[0].key {
            lemma_merge_keys_above(a, newer, k);
        } else if newer[0].key < older[0].key {
            lemma_merge_keys_above(older, b, k);
        } else {
            lemma_merge_keys_above(a, b, k);
        }
    }
}

proof fn lemma_sorted_tail(rows: Seq<RowRef>)
    requires
        rows.len() > 0,
        strictly_sorted(keys_of(rows)),
    ensures
        strictly_sorted(keys_of(rows.drop_first())),
        keys_above(rows.drop_first(), rows[0].key),
{
    let t = rows.drop_first();
    assert forall|i: int, j: int| 0 <= i < j < t.len() implies keys_of(t)[i] < keys_of(t)[j] by {
        assert(keys_of(rows)[i + 1] < keys_of(rows)[j + 1]);
    }
    assert forall|i: int| 0 <= i < t.len() implies t[i].key > rows[0].key by {
        assert(keys_of(rows)[0] < keys_of(rows)[i + 1]);
    }
}

proof fn lemma_sorted_cons(h: RowRef, rest: Seq<RowRef>)
    requires
        strictly_sorted(keys_of(rest)),
        keys_above(rest, h.key),
    ensures
        strictly_sorted(keys_of(seq![h] + rest)),
{
    let s = seq![h] + rest;
    assert forall|i: int, j: int| 0 <= i < j < s.len() implies keys_of(s)[i] < keys_of(s)[j] by {
        if i == 0 {
            assert(s[j] == rest[j - 1]);
        } else {
            assert(s[i] == rest[i - 1]);
            assert(s[j] == rest[j - 1]);
            assert(keys_of(rest)[i - 1] < keys_of(rest)[j - 1]);
        }
    }
}

/// Merging two runs that are in strictly ascending key order gives a run in
/// strictly ascending key order.
pub proof fn lemma_merge_two_sorted(older: Seq<RowRef>, newer: Seq<RowRef>)
    requires
        strictly_sorted(keys_of(older)),
        strictly_sorted(keys_of(newer)),
    ensures
        strictly_sorted(keys_of(merge_two(older, newer))),
    decreases older.len() + newer.len(),
{
    if older.len() > 0 && newer.len() > 0 {
        lemma_sorted_tail(older);
        lemma_sorted_tail(newer);
        let a = older.drop_first();
        let b = newer.drop_first();
        if older[0].key < newer[0].key {
            lemma_merge_two_sorted(a, newer);
            assert(keys_above(newer, older[0].key)) by {
                assert forall|i: int| 0 <= i < newer.len() implies newer[i].key > older[0].key by {
                    if i > 0 {
                        assert(b[i - 1] == newer[i]);
                    }
                }
            }
            lemma_merge_keys_above(a, newer, older[0].key);
            lemma_sorted_cons(older[0], merge_two(a, newer));
        } else if newer[0].key < older[0].key {
            lemma_merge_two_sorted(older, b);
            assert(keys_above(older, newer[0].key)) by {
                assert forall|i: int| 0 <= i < older.len() implies older[i].key > newer[0].key by {
                    if i > 0 {
                        assert(a[i - 1] == older[i]);
                    }
                }
            }
            lemma_merge_keys_above(older, b, newer[0].key);
            lemma_sorted_cons(newer[0], merge_two(older, b));
        } else {
            lemma_merge_two_sorted(a, b);
            assert(keys_above(a, newer[0].key));
            lemma_merge_keys_above(a, b, newer[0].key);
            lemma_sorted_cons(newer[0], merge_two(a, b));
        }
    }
}

/// Merging sources whose keys are each strictly ascending gives rows in
/// strictly ascending key order: the merge keeps the global key order and
/// emits each key once.
pub proof fn lemma_merge_all_sorted(sources: Seq<Seq<u64>>)
    requires
        forall|s: int| 0 <= s < sources.len() ==> strictly_sorted(#[trigger] sources[s]),
    ensures
        strictly_sorted(keys_of(merge_all(sources))),
    decreases sources.len(),
{
    if sources.len() > 0 {
        let pre = sources.drop_last();
        assert forall|s: int| 0 <= s < pre.len() implies strictly_sorted(#[trigger] pre[s]) by {
            assert(pre[s] == sources[s]);
        }
        lemma_merge_all_sorted(pre);
        let last = sources.last();
        assert(strictly_sorted(sources[sources.len() - 1]));
        let r = rows_of(last, (sources.len() - 1) as nat);
        assert(keys_of(r) =~= last);
        lemma_merge_two_sorted(merge_all(pre), r);
    }
}

/// Some row of the run has key `k`.
pub open spec fn has_key(rows: Seq<RowRef>, k: u64) -> bool {
    exists|i: int| 0 <= i < rows.len() && #[trigger] rows[i].key == k
}

proof fn lemma_has_key_split(rows: Seq<RowRef>, k: u64)
    requires
        rows.len() > 0,
    ensures
        has_key(rows, k) == (rows[0].key == k || has_key(rows.drop_first(), k)),
        forall|x: RowRef| rows.drop_first().contains(x) ==> rows.contains(x),
{
    let t = rows.drop_first();
    if has_key(rows, k) {
        let i = choose|i: int| 0 <= i < rows.len() && #[trigger] rows[i].key == k;
        if i > 0 {
            assert(t[i - 1].key == k);
        }
    }
    if has_key(t, k) {
        let i = choose|i: int| 0 <= i < t.len() && #[trigger] t[i].key == k;
        assert(rows[i + 1].key == k);
    }
    assert forall|x: RowRef| t.contains(x) implies rows.contains(x) by {
        let i = choose|i: int| 0 <= i < t.len() && t[i] == x;
        assert(rows[i + 1] == x);
    }
}

proof fn lemma_has_key_cons(h: RowRef, rest: Seq<RowRef>, k: u64)
    ensures
        has_key(seq![h] + rest, k) == (h.key == k || has_key(rest, k)),
{
    let s = seq![h] + rest;
    assert(s.drop_first() =~= rest);
    lemma_has_key_split(s, k);
}

proof fn lemma_no_key_below(rows: Seq<RowRef>, k: u64)
    requires
        keys_above(rows, k),
    ensures
        !has_key(rows, k),
{
    if has_key(rows, k) {
        let i = choose|i: int| 0 <= i < rows.len() && #[trigger] rows[i].key == k;
    }
}

/// Merging two runs in strictly ascending key order: the merged run holds
/// exactly the keys that either run holds, and each merged row comes from the
/// newer run where that run holds its key, else from the older run.
pub proof fn lemma_merge_two_rows(older: Seq<RowRef>, newer: Seq<RowRef>)
    requires
        strictly_sorted(keys_of(older)),
        strictly_sorted(keys_of(newer)),
    ensures
        forall|k: u64| #[trigger]
            has_key(merge_two(older, newer), k) == (has_key(older, k) || has_key(newer, k)),
        forall|i: int|
            0 <= i < merge_two(older, newer).len() ==> if has_key(
                newer,
                (#[trigger] merge_two(older, newer)[i]).key,
            ) {
                newer.contains(merge_two(older, newer)[i])
            } else {
                older.contains(merge_two(older, newer)[i])
            },
    decreases older.len() + newer.len(),
{
    let m = merge_two(older, newer);
    if older.len() == 0 {
        assert forall|k: u64| #[trigger] has_key(m, k) == (has_key(older, k) || has_key(newer, k)) by {
            lemma_no_key_below(older, k);
        }
        assert forall|i: int| 0 <= i < m.len() implies if has_key(newer, (#[trigger] m[i]).key) {
            newer.contains(m[i])
        } else {
            older.contains(m[i])
        } by {
            assert(newer[i].key == m[i].key);
            assert(newer.contains(m[i]));
        }
    } else if newer.len() == 0 {
        assert forall|k: u64| #[trigger] has_key(m, k) == (has_key(older, k) || has_key(newer, k)) by {
            lemma_no_key_below(newer, k);
        }
        assert forall|i: int| 0 <= i < m.len() implies if has_key(newer, (#[trigger] m[i]).key) {
            newer.contains(m[i])
        } else {
            older.contains(m[i])
        } by {
            lemma_no_key_below(newer, m[i].key);
            assert(older[i] == m[i]);
        }
    } else {
        lemma_sorted_tail(older);
        lemma_sorted_tail(newer);
        let a = older.drop_first();
        let b = newer.drop_first();
        let a0 = older[0];
        let b0 = newer[0];
        assert forall|k: u64| true implies has_key(older, k) == (a0.key == k || has_key(a, k))
            && has_key(newer, k) == (b0.key == k || has_key(b, k)) by {
            lemma_has_key_split(older, k);
            lemma_has_key_split(newer, k);
        }
        lemma_has_key_split(older, 0);
        lemma_has_key_split(newer, 0);
        if a0.key < b0.key {
            let rest = merge_two(a, newer);
            lemma_merge_two_rows(a, newer);
            assert(m == seq![a0] + rest);
            assert forall|k: u64| #[trigger] has_key(m, k) == (has_key(older, k) || has_key(newer, k)) by {
                lemma_has_key_cons(a0, rest, k);
            }
            assert(keys_above(newer, a0.key)) by {
                assert forall|i: int| 0 <= i < newer.len() implies newer[i].key > a0.key by {
                    if i > 0 {
                        assert(b[i - 1] == newer[i]);
                    }
                }
            }
            lemma_no_key_below(newer, a0.key);
            assert forall|i: int| 0 <= i < m.len() implies if has_key(newer, (#[trigger] m[i]).key) {
                newer.contains(m[i])
            } else {
                older.contains(m[i])
            } by {
                if i == 0 {
                    assert(older[0] == m[0]);
                } else {
                    assert(m[i] == rest[i - 1]);
                }
            }
        } else if b0.key < a0.key {
            let rest = merge_two(older, b);
            lemma_merge_two_rows(older, b);
            assert(m == seq![b0] + rest);
            assert forall|k: u64| #[trigger] has_key(m, k) == (has_key(older, k) || has_key(newer, k)) by {
                lemma_has_key_cons(b0, rest, k);
            }
            assert forall|i: int| 0 <= i < m.len() implies if has_key(newer, (#[trigger] m[i]).key) {
                newer.contains(m[i])
            } else {
                older.contains(m[i])
            } by {
                if i == 0 {
                    assert(newer[0] == m[0]);
                    assert(newer[0].key == m[0].key);
                } else {
                    let x = rest[i - 1];
                    assert(m[i] == x);
                    if !has_key(b, x.key) {
                        // x comes from the older run, whose keys are all above b0's
                        assert(older.contains(x));
                        let j = choose|j: int| 0 <= j < older.len() && older[j] == x;
                        if j > 0 {
                            assert(a[j - 1] == older[j]);
                        }
                        assert(x.key != b0.key);
                    }
                }
            }
        } else {
            let rest = merge_two(a, b);
            lemma_merge_two_rows(a, b);
            assert(m == seq![b0] + rest);
            assert forall|k: u64| #[trigger] has_key(m, k) == (has_key(older, k) || has_key(newer, k)) by {
                lemma_has_key_cons(b0, rest, k);
            }
            assert forall|i: int| 0 <= i < m.len() implies if has_key(newer, (#[trigger] m[i]).key) {
                newer.contains(m[i])
            } else {
                older.contains(m[i])
            } by {
                if i == 0 {
                    assert(newer[0] == m[0]);
                    assert(newer[0].key == m[0].key);
                } else {
                    let x = rest[i - 1];
                    assert(m[i] == x);
                    if !has_key(b, x.key) {
                        assert(a.contains(x));
                        let j = choose|j: int| 0 <= j < a.len() && a[j] == x;
                        assert(x.key > a0.key);
                    }
                }
            }
        }
    }
}

proof fn lemma_sorted_key_unique(x: Seq<RowRef>, i: int, j: int)
    requires
        strictly_sorted(keys_of(x)),
        0 <= i < x.len(),
        0 <= j < x.len(),
        x[i].key == x[j].key,
    ensures
        i == j,
{
    if i < j {
        assert(keys_of(x)[i] < keys_of(x)[j]);
    } else if j < i {
        assert(keys_of(x)[j] < keys_of(x)[i]);
    }
}

/// A row belongs to the merge of two runs: it is a newer row, or an older
/// row whose key the newer run does not hold.
pub open spec fn merged_contains(older: Seq<RowRef>, newer: Seq<RowRef>, r: RowRef) -> bool {
    newer.contains(r) || (older.contains(r) && !has_key(newer, r.key))
}

proof fn lemma_merge_two_contents(older: Seq<RowRef>, newer: Seq<RowRef>)
    requires
        strictly_sorted(keys_of(older)),
        strictly_sorted(keys_of(newer)),
    ensures
        forall|r: RowRef| #[trigger] merge_two(older, newer).contains(r) == merged_contains(older, newer, r),
{
    let m = merge_two(older, newer);
    lemma_merge_two_rows(older, newer);
    lemma_merge_two_sorted(older, newer);
    assert forall|r: RowRef| #[trigger] m.contains(r) == merged_contains(older, newer, r) by {
        if m.contains(r) {
            let i = choose|i: int| 0 <= i < m.len() && m[i] == r;
            if has_key(newer, m[i].key) {
                assert(newer.contains(r));
            } else {
                assert(older.contains(r));
            }
        }
        if newer.contains(r) {
            let j = choose|j: int| 0 <= j < newer.len() && newer[j] == r;
            assert(newer[j].key == r.key);
            assert(has_key(newer, r.key));
            assert(has_key(m, r.key));
            let i = choose|i: int| 0 <= i < m.len() && #[trigger] m[i].key == r.key;
            assert(newer.contains(m[i]));
            let j2 = choose|j2: int| 0 <= j2 < newer.len() && newer[j2] == m[i];
            lemma_sorted_key_unique(newer, j, j2);
            assert(m.contains(r));
        } else if older.contains(r) && !has_key(newer, r.key) {
            let j = choose|j: int| 0 <= j < older.len() && older[j] == r;
            assert(older[j].key == r.key);
            assert(has_key(older, r.key));
            assert(has_key(m, r.key));
            let i = choose|i: int| 0 <= i < m.len() && #[trigger] m[i].key == r.key;
            assert(older.contains(m[i]));
            let j2 = choose|j2: int| 0 <= j2 < older.len() && older[j2] == m[i];
            lemma_sorted_key_unique(older, j, j2);
            assert(m.contains(r));
        }
    }
}

proof fn lemma_sorted_unique(x: Seq<RowRef>, y: Seq<RowRef>)
    requires
        strictly_sorted(keys_of(x)),
        strictly_sorted(keys_of(y)),
        forall|r: RowRef| x.contains(r) == y.contains(r),
    ensures
        x == y,
    decreases x.len(),
{
    if x.len() == 0 {
        if y.len() > 0 {
            assert(y.contains(y[0]));
        }
        assert(x =~= y);
    } else {
        assert(x.contains(x[0]));
        assert(y.len() > 0);
        assert(y.contains(y[0]));
        let i = choose|i: int| 0 <= i < y.len() && y[i] == x[0];
        let j = choose|j: int| 0 <= j < x.len() && x[j] == y[0];
        if i > 0 {
            assert(keys_of(y)[0] < keys_of(y)[i]);
        }
        if j > 0 {
            assert(keys_of(x)[0] < keys_of(x)[j]);
        }
        assert(x[0] == y[0]);
        lemma_sorted_tail(x);
        lemma_sorted_tail(y);
        let xt = x.drop_first();
        let yt = y.drop_first();
        assert forall|r: RowRef| xt.contains(r) == yt.contains(r) by {
            if xt.contains(r) {
                let a = choose|a: int| 0 <= a < xt.len() && xt[a] == r;
                assert(x[a + 1] == r);
                assert(r.key > x[0].key);
                assert(y.contains(r));
                let b = choose|b: int| 0 <= b < y.len() && y[b] == r;
                assert(b != 0);
                assert(yt[b - 1] == r);
            }
            if yt.contains(r) {
                let a = choose|a: int| 0 <= a < yt.len() && yt[a] == r;
                assert(y[a + 1] == r);
                assert(r.key > y[0].key);
                assert(x.contains(r));
                let b = choose|b: int| 0 <= b < x.len() && x[b] == r;
                assert(b != 0);
                assert(xt[b - 1] == r);
            }
        }
        lemma_sorted_unique(xt, yt);
        assert(x =~= seq![x[0]] + xt);
        assert(y =~= seq![y[0]] + yt);
    }
}

/// Merging is associative on runs in strictly ascending key order: runs may
/// be merged in any grouping, as long as their order by recency is kept.
pub proof fn lemma_merge_two_assoc(a: Seq<RowRef>, b: Seq<RowRef>, c: Seq<RowRef>)
    requires
        strictly_sorted(keys_of(a)),
        strictly_sorted(keys_of(b)),
        strictly_sorted(keys_of(c)),
    ensures
        merge_two(merge_two(a, b), c) == merge_two(a, merge_two(b, c)),
{
    let ab = merge_two(a, b);
    let bc = merge_two(b, c);
    lemma_merge_two_sorted(a, b);
    lemma_merge_two_sorted(b, c);
    lemma_merge_two_sorted(ab, c);
    lemma_merge_two_sorted(a, bc);
    lemma_merge_two_contents(a, b);
    lemma_merge_two_contents(b, c);
    lemma_merge_two_contents(ab, c);
    lemma_merge_two_contents(a, bc);
    lemma_merge_two_rows(b, c);
    let l = merge_two(ab, c);
    let r = merge_two(a, bc);
    assert forall|x: RowRef| l.contains(x) == r.contains(x) by {
        assert(has_key(bc, x.key) == (has_key(b, x.key) || has_key(c, x.key)));
    }
    lemma_sorted_unique(l, r);
}

/// Merges sources `lo` to `hi - 1`, oldest first; each keeps its index as
/// its source tag.
pub open spec fn merge_span(sources: Seq<Seq<u64>>, lo: int, hi: int) -> Seq<RowRef>
    decreases hi - lo,
{
    if hi <= lo {
        Seq::empty()
    } else {
        merge_two(merge_span(sources, lo, hi - 1), rows_of(sources[hi - 1], (hi - 1) as nat))
    }
}

proof fn lemma_rows_of_sorted(keys: Seq<u64>, source: nat)
    requires
        strictly_sorted(keys),
    ensures
        strictly_sorted(keys_of(rows_of(keys, source))),
{
    assert(keys_of(rows_of(keys, source)) =~= keys);
}

proof fn lemma_span_sorted(sources: Seq<Seq<u64>>, lo: int, hi: int)
    requires
        0 <= lo,
        hi <= sources.len(),
        forall|s: int| 0 <= s < sources.len() ==> strictly_sorted(#[trigger] sources[s]),
    ensures
        strictly_sorted(keys_of(merge_span(sources, lo, hi))),
    decreases hi - lo,
{
    if hi > lo {
        lemma_span_sorted(sources, lo, hi - 1);
        assert(strictly_sorted(sources[hi - 1]));
        lemma_rows_of_sorted(sources[hi - 1], (hi - 1) as nat);
        lemma_merge_two_sorted(merge_span(sources, lo, hi - 1), rows_of(sources[hi - 1], (hi - 1) as nat));
    } else {
        assert(keys_of(merge_span(sources, lo, hi)) =~= Seq::<u64>::empty());
    }
}

proof fn lemma_span_agree(s: Seq<Seq<u64>>, t: Seq<Seq<u64>>, lo: int, hi: int)
    requires
        forall|i: int| lo <= i < hi ==> s[i] == t[i],
    ensures
        merge_span(s, lo, hi) == merge_span(t, lo, hi),
    decreases hi - lo,
{
    if hi > lo {
        lemma_span_agree(s, t, lo, hi - 1);
    }
}

proof fn lemma_merge_all_is_span(sources: Seq<Seq<u64>>)
    ensures
        merge_all(sources) == merge_span(sources, 0, sources.len() as int),
    decreases sources.len(),
{
    if sources.len() > 0 {
        let pre = sources.drop_last();
        lemma_merge_all_is_span(pre);
        lemma_span_agree(pre, sources, 0, pre.len() as int);
    }
}

proof fn lemma_merge_empty_right(rows: Seq<RowRef>)
    ensures
        merge_two(rows, Seq::empty()) == rows,
{
}

proof fn lemma_span_split(sources: Seq<Seq<u64>>, lo: int, mid: int, hi: int)
    requires
        0 <= lo <= mid <= hi <= sources.len(),
        forall|s: int| 0 <= s < sources.len() ==> strictly_sorted(#[trigger] sources[s]),
    ensures
        merge_span(sources, lo, hi) == merge_two(merge_span(sources, lo, mid), merge_span(sources, mid, hi)),
    decreases hi - mid,
{
    if hi == mid {
        lemma_merge_empty_right(merge_span(sources, lo, mid));
    } else {
        lemma_span_split(sources, lo, mid, hi - 1);
        let left = merge_span(sources, lo, mid);
        let inner = merge_span(sources, mid, hi - 1);
        let last = rows_of(sources[hi - 1], (hi - 1) as nat);
        lemma_span_sorted(sources, lo, mid);
        lemma_span_sorted(sources, mid, hi - 1);
        assert(strictly_sorted(sources[hi - 1]));
        lemma_rows_of_sorted(sources[hi - 1], (hi - 1) as nat);
        lemma_merge_two_assoc(left, inner, last);
    }
}

/// Merges sources `lo` to `hi - 1` by halves, so that each row takes part
/// in a number of merges logarithmic in the number of sources.
fn merge_range(sources: &Vec<Vec<u64>>, lo: usize, hi: usize) -> (r: Vec<RowRef>)
    requires
        lo <= hi <= sources@.len(),
        forall|s: int| 0 <= s < sources@.len() ==> strictly_sorted(#[trigger] sources@[s]@),
    ensures
        r@ == merge_span(views_of(sources@), lo as int, hi as int),
    decreases hi - lo,
{
    let ghost views = views_of(sources@);
    proof {
        assert forall|s: int| 0 <= s < views.len() implies strictly_sorted(#[trigger] views[s]) by {
            assert(views[s] == sources@[s]@);
        }
    }
    if hi == lo {
        return Vec::new();
    }
    if hi - lo == 1 {
        let rows = rows_from(&sources[lo], lo);
        proof {
            assert(views[lo as int] == sources@[lo as int]@);
            assert(merge_span(views, lo as int, lo as int) =~= Seq::<RowRef>::empty());
        }
        return rows;
    }
    let mid = lo + (hi - lo) / 2;
    let left = merge_range(sources, lo, mid);
    let right = merge_range(sources, mid, hi);
    proof {
        lemma_span_split(views, lo as int, mid as int, hi as int);
    }
    merge_rows(&left, &right)
}

} // verus!
