use vstd::prelude::*;

use crate::column::{
    capacity_fits, cell_accepted, frozen_from, ColumnData, Field, MergedArrayData, ScalarValue,
};
use crate::error::EngineError;
use crate::merge::RowRef;

verus! {

/// Builds one output batch: a column builder per field, fed row by row.
pub struct MergeRowBuilder {
    columns: Vec<MergedArrayData>,
}

/// All columns hold the same number of rows.
pub open spec fn same_lengths(cols: Seq<Seq<Option<ScalarValue>>>) -> bool {
    forall|i: int| 0 <= i < cols.len() ==> #[trigger] cols[i].len() == cols[0].len()
}

impl View for MergeRowBuilder {
    type V = Seq<Seq<Option<ScalarValue>>>;

    /// The rows of each column.
    closed spec fn view(&self) -> Seq<Seq<Option<ScalarValue>>> {
        self.columns@.map_values(|c: MergedArrayData| c@)
    }
}

impl MergeRowBuilder {
    pub closed spec fn wf(&self) -> bool {
        forall|i: int| 0 <= i < self.columns@.len() ==> (#[trigger] self.columns@[i]).wf()
    }

    /// Type and nullability of each column.
    pub closed spec fn schema(&self) -> Seq<(crate::column::DataType, bool)> {
        self.columns@.map_values(
            |c: MergedArrayData| (c.spec_data_type(), c.spec_nullable()),
        )
    }

    pub fn new(fields: &Vec<Field>, capacity: usize) -> (r: Self)
        requires
            forall|i: int|
                0 <= i < fields@.len() ==> capacity_fits(#[trigger] fields@[i].data_type, capacity as nat),
        ensures
            r.wf(),
            r@.len() == fields@.len(),
            forall|i: int| 0 <= i < fields@.len() ==> (#[trigger] r@[i]).len() == 0,
            r.schema().len() == fields@.len(),
            forall|i: int|
                0 <= i < fields@.len() ==> #[trigger] r.schema()[i] == (
                    fields@[i].data_type,
                    fields@[i].nullable,
                ),
    {
        let mut columns: Vec<MergedArrayData> = Vec::new();
        let mut i: usize = 0;
        while i < fields.len()
            invariant
                i <= fields@.len(),
                columns@.len() == i,
                forall|j: int|
                    0 <= j < fields@.len() ==> capacity_fits(#[trigger] fields@[j].data_type, capacity as nat),
                forall|j: int|
                    0 <= j < i ==> (#[trigger] columns@[j]).wf() && columns@[j]@.len() == 0
                        && columns@[j].spec_data_type() == fields@[j].data_type
                        && columns@[j].spec_nullable() == fields@[j].nullable,
            decreases fields@.len() - i,
        {
            let c = MergedArrayData::new(&fields[i], capacity);
            columns.push(c);
            i += 1;
        }
        let r = MergeRowBuilder { columns };
        proof {
            assert forall|j: int| 0 <= j < fields@.len() implies (#[trigger] r@[j]).len() == 0 by {
                assert(r@[j] == r.columns@[j]@);
            }
        }
        r
    }

    pub fn num_columns(&self) -> (r: usize)
        ensures
            r as nat == self@.len(),
    {
        self.columns.len()
    }

    /// Appends one cell to column `column`. A cell that the column refuses,
    /// or a column that does not exist, leaves the builder as it was.
    pub fn push_cell(&mut self, column: usize, c: Option<ScalarValue>) -> (r: Result<(), EngineError>)
        requires
            old(self).wf(),
            column < old(self)@.len() ==> old(self)@[column as int].len() < usize::MAX,
        ensures
            final(self).wf(),
            final(self).schema() == old(self).schema(),
            column < old(self)@.len() && cell_accepted(
                old(self).schema()[column as int].0,
                old(self).schema()[column as int].1,
                c,
            ) ==> r is Ok && final(self)@ == old(self)@.update(
                column as int,
                old(self)@[column as int].push(c),
            ),
            !(column < old(self)@.len() && cell_accepted(
                old(self).schema()[column as int].0,
                old(self).schema()[column as int].1,
                c,
            )) ==> r == Err::<(), EngineError>(EngineError::InvariantViolation) && final(self)@
                == old(self)@,
    {
        if column >= self.columns.len() {
            return Err(EngineError::InvariantViolation);
        }
        let mut col = MergedArrayData::empty();
        self.columns.set_and_swap(column, &mut col);
        let r = col.push_cell(c);
        self.columns.set_and_swap(column, &mut col);
        proof {
            assert(self.columns@ =~= old(self).columns@.update(column as int, self.columns@[column as int]));
            assert(self@ =~= old(self)@.update(column as int, self.columns@[column as int]@));
            if r is Err {
                assert(self@ =~= old(self)@);
            }
            assert(self.schema() =~= old(self).schema());
        }
        r
    }

    /// Appends one row: a cell per column. A row of the wrong width, or with a
    /// cell that its column refuses, is refused whole and nothing is appended.
    pub fn append_row(&mut self, row: &Vec<Option<ScalarValue>>) -> (r: Result<(), EngineError>)
        requires
            old(self).wf(),
            forall|i: int| 0 <= i < old(self)@.len() ==> (#[trigger] old(self)@[i]).len() < usize::MAX,
        ensures
            final(self).wf(),
            final(self).schema() == old(self).schema(),
            r is Ok <==> row@.len() == old(self)@.len() && forall|i: int|
                0 <= i < row@.len() ==> cell_accepted(
                    #[trigger] old(self).schema()[i].0,
                    old(self).schema()[i].1,
                    row@[i],
                ),
            r is Ok ==> final(self)@.len() == old(self)@.len() && forall|i: int|
                0 <= i < row@.len() ==> #[trigger] final(self)@[i] == old(self)@[i].push(row@[i]),
            r is Err ==> r == Err::<(), EngineError>(EngineError::InvariantViolation) && final(self)@
                == old(self)@,
    {
        let n = self.columns.len();
        assert(self.columns@.len() == self@.len());
        if row.len() != n {
            return Err(EngineError::InvariantViolation);
        }
        let mut k: usize = 0;
        while k < n
            invariant
                k <= n,
                n == self.columns@.len(),
                row@.len() == n,
                self.wf(),
                forall|i: int|
                    0 <= i < k ==> cell_accepted(
                        #[trigger] self.schema()[i].0,
                        self.schema()[i].1,
                        row@[i],
                    ),
            decreases n - k,
        {
            let dt = self.columns[k].data_type();
            let nullable = self.columns[k].is_nullable();
            let ok = match row[k] {
                None => nullable,
                Some(v) => crate::column::value_matches_of(dt, v),
            };
            if !ok {
                proof {
                    assert(self.schema()[k as int] == (
                        self.columns@[k as int].spec_data_type(),
                        self.columns@[k as int].spec_nullable(),
                    ));
                    assert(!cell_accepted(self.schema()[k as int].0, self.schema()[k as int].1, row@[k as int]));
                }
                return Err(EngineError::InvariantViolation);
            }
            k += 1;
        }
        let mut j: usize = 0;
        while j < n
            invariant
                j <= n,
                n == self.columns@.len(),
                n == old(self).columns@.len(),
                row@.len() == n,
                self.wf(),
                self.schema() == old(self).schema(),
                forall|i: int|
                    0 <= i < n ==> cell_accepted(
                        #[trigger] old(self).schema()[i].0,
                        old(self).schema()[i].1,
                        row@[i],
                    ),
                forall|i: int|
                    0 <= i < n ==> (#[trigger] old(self)@[i]).len() < usize::MAX,
                forall|i: int| 0 <= i < j ==> #[trigger] self@[i] == old(self)@[i].push(row@[i]),
                forall|i: int| j <= i < n ==> #[trigger] self@[i] == old(self)@[i],
            decreases n - j,
        {
            let ghost before = self@;
            proof {
                assert(self.columns@.len() == self@.len());
                assert(self.schema()[j as int] == old(self).schema()[j as int]);
            }
            let _ = self.push_cell(j, row[j]);
            proof {
                assert(self.columns@.len() == self@.len());
                assert forall|i: int| 0 <= i < j + 1 implies #[trigger] self@[i] == old(self)@[i].push(row@[i]) by {
                    if i < j {
                        assert(self@[i] == before[i]);
                    }
                }
                assert forall|i: int| j + 1 <= i < n implies #[trigger] self@[i] == old(self)@[i] by {
                    assert(self@[i] == before[i]);
                }
            }
            j += 1;
        }
        Ok(())
    }

    /// Freezes every column into one batch. Columns of unequal length are
    /// refused: some row was not appended to every column.
    pub fn freeze(self) -> (r: Result<Vec<ColumnData>, EngineError>)
        requires
            self.wf(),
        ensures
            r is Ok <==> same_lengths(self@),
            r is Err ==> r == Err::<Vec<ColumnData>, EngineError>(EngineError::InvariantViolation),
            r is Ok ==> r->Ok_0@.len() == self@.len() && forall|i: int|
                0 <= i < self@.len() ==> frozen_from(
                    #[trigger] r->Ok_0@[i],
                    self.schema()[i].0,
                    self@[i],
                ),
    {
        let n = self.columns.len();
        if n > 0 {
            let first = self.columns[0].len();
            let mut k: usize = 1;
            while k < n
                invariant
                    1 <= k <= n,
                    n == self.columns@.len(),
                    self.wf(),
                    first as nat == self@[0].len(),
                    forall|i: int| 0 <= i < k ==> (#[trigger] self@[i]).len() == self@[0].len(),
                decreases n - k,
            {
                if self.columns[k].len() != first {
                    proof {
                        assert(self@[k as int].len() != self@[0].len());
                    }
                    return Err(EngineError::InvariantViolation);
                }
                k += 1;
            }
        }
        let ghost cols = self@;
        let ghost sch = self.schema();
        let mut columns = self.columns;
        let mut out: Vec<ColumnData> = Vec::new();
        let mut j: usize = 0;
        while j < n
            invariant
                j <= n,
                n == columns@.len(),
                out@.len() == j,
                cols.len() == n,
                sch.len() == n,
                forall|i: int| j <= i < n ==> (#[trigger] columns@[i]).wf(),
                forall|i: int| j <= i < n ==> #[trigger] columns@[i]@ == cols[i],
                forall|i: int| j <= i < n ==> #[trigger] columns@[i].spec_data_type() == sch[i].0,
                forall|i: int| 0 <= i < j ==> frozen_from(#[trigger] out@[i], sch[i].0, cols[i]),
            decreases n - j,
        {
            let mut col = MergedArrayData::empty();
            columns.set_and_swap(j, &mut col);
            let frozen = col.freeze();
            out.push(frozen);
            j += 1;
        }
        Ok(out)
    }
}

/// Type and nullability of each field.
pub open spec fn fields_schema(fields: Seq<Field>) -> Seq<(crate::column::DataType, bool)> {
    fields.map_values(|f: Field| (f.data_type, f.nullable))
}

/// The cells of column `c` of the rows.
pub open spec fn column_of(rows: Seq<Seq<Option<ScalarValue>>>, c: int) -> Seq<Option<ScalarValue>> {
    rows.map_values(|r: Seq<Option<ScalarValue>>| r[c])
}

/// Every chosen row exists in its source.
pub open spec fn selection_valid(sources: Seq<Vec<Vec<Option<ScalarValue>>>>, sel: Seq<RowRef>) -> bool {
    forall|i: int|
        0 <= i < sel.len() ==> (#[trigger] sel[i]).source < sources.len() && sel[i].row
            < sources[sel[i].source as int]@.len()
}

/// The chosen rows, read from their sources.
pub open spec fn selected_rows(sources: Seq<Vec<Vec<Option<ScalarValue>>>>, sel: Seq<RowRef>) -> Seq<
    Seq<Option<ScalarValue>>,
> {
    sel.map_values(|r: RowRef| sources[r.source as int]@[r.row as int]@)
}

/// A row that fits the schema: a cell per column, each one its column accepts.
pub open spec fn row_accepted(schema: Seq<(crate::column::DataType, bool)>, row: Seq<Option<ScalarValue>>) -> bool {
    &&& row.len() == schema.len()
    &&& forall|i: int| 0 <= i < row.len() ==> cell_accepted(#[trigger] schema[i].0, schema[i].1, row[i])
}

/// Assembles one merged batch: for each row that the merge chose, in order,
/// reads the row from its source and appends its cells to the columns, then
/// freezes all columns together. A chosen row that does not exist, or that
/// does not fit the schema, is an invariant violation.
pub fn assemble_batch(
    fields: &Vec<Field>,
    sources: &Vec<Vec<Vec<Option<ScalarValue>>>>,
    selection: &Vec<RowRef>,
) -> (r: Result<Vec<ColumnData>, EngineError>)
    requires
        forall|i: int|
            0 <= i < fields@.len() ==> capacity_fits(#[trigger] fields@[i].data_type, selection@.len()),
    ensures
        r is Ok <==> selection_valid(sources@, selection@) && forall|i: int|
            0 <= i < selection@.len() ==> row_accepted(
                fields_schema(fields@),
                #[trigger] selected_rows(sources@, selection@)[i],
            ),
        r is Err ==> r == Err::<Vec<ColumnData>, EngineError>(EngineError::InvariantViolation),
        r is Ok ==> r->Ok_0@.len() == fields@.len() && forall|c: int|
            0 <= c < fields@.len() ==> frozen_from(
                #[trigger] r->Ok_0@[c],
                fields@[c].data_type,
                column_of(selected_rows(sources@, selection@), c),
            ),
{
    let ghost schema = fields_schema(fields@);
    let ghost rows = selected_rows(sources@, selection@);
    let mut b = MergeRowBuilder::new(fields, selection.len());
    proof {
        assert(b.schema() =~= schema);
        assert forall|c: int| 0 <= c < fields@.len() implies #[trigger] b@[c] == column_of(
            rows.subrange(0, 0),
            c,
        ) by {
            assert(column_of(rows.subrange(0, 0), c) =~= Seq::<Option<ScalarValue>>::empty());
        }
    }
    let n = selection.len();
    let mut j: usize = 0;
    while j < n
        invariant
            j <= n,
            n == selection@.len(),
            rows == selected_rows(sources@, selection@),
            b.wf(),
            b.schema() == schema,
            schema == fields_schema(fields@),
            b@.len() == fields@.len(),
            forall|c: int| 0 <= c < fields@.len() ==> #[trigger] b@[c] == column_of(rows.subrange(0, j as int), c),
            forall|i: int|
                0 <= i < j ==> (#[trigger] selection@[i]).source < sources@.len() && selection@[i].row
                    < sources@[selection@[i].source as int]@.len(),
            forall|i: int| 0 <= i < j ==> row_accepted(schema, #[trigger] rows[i]),
        decreases n - j,
    {
        let pick = selection[j];
        if pick.source >= sources.len() || pick.row >= sources[pick.source].len() {
            return Err(EngineError::InvariantViolation);
        }
        let row = &sources[pick.source][pick.row];
        proof {
            assert(rows[j as int] == row@);
            assert forall|c: int| 0 <= c < b@.len() implies (#[trigger] b@[c]).len() < usize::MAX by {
                assert(b@[c].len() == j);
            }
        }
        let ghost before = b@;
        match b.append_row(row) {
            Ok(()) => {},
            Err(e) => {
                proof {
                    assert(!row_accepted(schema, rows[j as int]));
                }
                return Err(e);
            },
        }
        proof {
            assert forall|c: int| 0 <= c < fields@.len() implies #[trigger] b@[c] == column_of(
                rows.subrange(0, j + 1),
                c,
            ) by {
                assert(b@[c] == before[c].push(row@[c]));
                assert(column_of(rows.subrange(0, j + 1), c) =~= column_of(rows.subrange(0, j as int), c).push(row@[c]));
            }
        }
        j += 1;
    }
    proof {
        assert(rows.subrange(0, n as int) =~= rows);
        assert forall|c: int| 0 <= c < b@.len() implies #[trigger] b@[c].len() == b@[0].len() by {
            assert(b@[c] == column_of(rows, c));
            assert(b@[0] == column_of(rows, 0));
        }
    }
    b.freeze()
}

/// The selection cut into batches of `size` rows, the last one shorter.
pub open spec fn chunks(sel: Seq<RowRef>, size: nat) -> Seq<Seq<RowRef>>
    decreases sel.len(),
{
    if sel.len() == 0 {
        Seq::empty()
    } else if sel.len() <= size || size == 0 {
        seq![sel]
    } else {
        seq![sel.subrange(0, size as int)] + chunks(sel.subrange(size as int, sel.len() as int), size)
    }
}

/// The chosen rows of `sel` all exist and fit the schema.
pub open spec fn selection_ok(
    fields: Seq<Field>,
    sources: Seq<Vec<Vec<Option<ScalarValue>>>>,
    sel: Seq<RowRef>,
) -> bool {
    selection_valid(sources, sel) && forall|i: int|
        0 <= i < sel.len() ==> row_accepted(fields_schema(fields), #[trigger] selected_rows(sources, sel)[i])
}

/// `cols` is the batch of the chosen rows `sel`.
pub open spec fn batch_of(
    cols: Seq<ColumnData>,
    fields: Seq<Field>,
    sources: Seq<Vec<Vec<Option<ScalarValue>>>>,
    sel: Seq<RowRef>,
) -> bool {
    cols.len() == fields.len() && forall|c: int|
        0 <= c < fields.len() ==> frozen_from(
            #[trigger] cols[c],
            fields[c].data_type,
            column_of(selected_rows(sources, sel), c),
        )
}

proof fn lemma_capacity_monotone(dt: crate::column::DataType, small: nat, large: nat)
    requires
        small <= large,
        capacity_fits(dt, large),
    ensures
        capacity_fits(dt, small),
{
    let w = crate::column::slot_width(dt) + 4;
    assert(w * (small + 1) <= w * (large + 1)) by (nonlinear_arith)
        requires
            small <= large,
    ;
}

fn copy_range(sel: &Vec<RowRef>, start: usize, end: usize) -> (r: Vec<RowRef>)
    requires
        start <= end <= sel@.len(),
    ensures
        r@ == sel@.subrange(start as int, end as int),
{
    let mut out: Vec<RowRef> = Vec::new();
    let mut i: usize = start;
    while i < end
        invariant
            start <= i <= end,
            end <= sel@.len(),
            out@ == sel@.subrange(start as int, i as int),
        decreases end - i,
    {
        out.push(sel[i]);
        proof {
            assert(out@ =~= sel@.subrange(start as int, i + 1));
        }
        i += 1;
    }
    out
}

/// Assembles the chosen rows into batches of at most `batch_size` rows each,
/// in order; every batch is frozen on its own. Fails as `assemble_batch` does
/// where some batch has a row that does not exist or does not fit.
pub fn assemble_batches(
    fields: &Vec<Field>,
    sources: &Vec<Vec<Vec<Option<ScalarValue>>>>,
    selection: &Vec<RowRef>,
    batch_size: usize,
) -> (r: Result<Vec<Vec<ColumnData>>, EngineError>)
    requires
        batch_size > 0,
        forall|i: int|
            0 <= i < fields@.len() ==> capacity_fits(#[trigger] fields@[i].data_type, selection@.len()),
    ensures
        r is Ok <==> forall|k: int|
            0 <= k < chunks(selection@, batch_size as nat).len() ==> selection_ok(
                fields@,
                sources@,
                #[trigger] chunks(selection@, batch_size as nat)[k],
            ),
        r is Err ==> r == Err::<Vec<Vec<ColumnData>>, EngineError>(EngineError::InvariantViolation),
        r is Ok ==> r->Ok_0@.len() == chunks(selection@, batch_size as nat).len() && forall|k: int|
            0 <= k < r->Ok_0@.len() ==> batch_of(
                (#[trigger] r->Ok_0@[k])@,
                fields@,
                sources@,
                chunks(selection@, batch_size as nat)[k],
            ),
{
    let ghost sel = selection@;
    let ghost bs = batch_size as nat;
    let n = selection.len();
    let mut out: Vec<Vec<ColumnData>> = Vec::new();
    let ghost mut done: Seq<Seq<RowRef>> = Seq::empty();
    let mut start: usize = 0;
    proof {
        assert(sel.subrange(0, n as int) =~= sel);
        assert(chunks(sel, bs) =~= done + chunks(sel.subrange(0, n as int), bs));
    }
    while start < n
        invariant
            start <= n,
            n == sel.len(),
            sel == selection@,
            bs == batch_size as nat,
            batch_size > 0,
            forall|i: int|
                0 <= i < fields@.len() ==> capacity_fits(#[trigger] fields@[i].data_type, sel.len()),
            chunks(sel, bs) == done + chunks(sel.subrange(start as int, n as int), bs),
            out@.len() == done.len(),
            forall|k: int| 0 <= k < done.len() ==> selection_ok(fields@, sources@, #[trigger] done[k]),
            forall|k: int|
                0 <= k < done.len() ==> batch_of((#[trigger] out@[k])@, fields@, sources@, done[k]),
        decreases n - start,
    {
        let end = if n - start <= batch_size {
            n
        } else {
            start + batch_size
        };
        let chunk = copy_range(selection, start, end);
        let ghost rem = sel.subrange(start as int, n as int);
        proof {
            if end == n {
                assert(rem =~= chunk@);
                assert(chunks(rem, bs) == seq![rem]);
                assert(chunks(sel.subrange(end as int, n as int), bs) =~= Seq::<Seq<RowRef>>::empty());
                assert(chunks(rem, bs) =~= seq![chunk@] + chunks(sel.subrange(end as int, n as int), bs));
            } else {
                assert(rem.subrange(0, bs as int) =~= chunk@);
                assert(rem.subrange(bs as int, rem.len() as int) =~= sel.subrange(end as int, n as int));
                assert(chunks(rem, bs) == seq![chunk@] + chunks(sel.subrange(end as int, n as int), bs));
            }
            assert forall|i: int| 0 <= i < fields@.len() implies capacity_fits(
                #[trigger] fields@[i].data_type,
                chunk@.len(),
            ) by {
                lemma_capacity_monotone(fields@[i].data_type, chunk@.len(), sel.len());
            }
            assert(chunks(sel, bs) =~= done.push(chunk@) + chunks(sel.subrange(end as int, n as int), bs));
        }
        match assemble_batch(fields, sources, &chunk) {
            Ok(cols) => {
                out.push(cols);
                proof {
                    done = done.push(chunk@);
                }
            },
            Err(e) => {
                proof {
                    assert(chunks(sel, bs)[done.len() as int] == chunk@);
                    assert(!selection_ok(fields@, sources@, chunk@));
                }
                return Err(e);
            },
        }
        start = end;
    }
    proof {
        assert(chunks(sel.subrange(n as int, n as int), bs) =~= Seq::<Seq<RowRef>>::empty());
        assert(chunks(sel, bs) =~= done);
    }
    Ok(out)
}

} // verus!
