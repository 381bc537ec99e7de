use vstd::prelude::*;

use crate::text::{chars_of, is_word, string_of};

verus! {

/// Parses filter strings of the form `op(left, right)`.
pub struct Parser {}

pub open spec fn paren_delta(c: char) -> int {
    if c == '(' {
        1
    } else if c == ')' {
        -1
    } else {
        0
    }
}

/// Nesting depth of parentheses before position `i`.
pub open spec fn depth_at(s: Seq<char>, i: int) -> int
    decreases i,
{
    if i <= 0 {
        0
    } else {
        depth_at(s, i - 1) + paren_delta(s[i - 1])
    }
}

/// Position of the last comma at depth zero among the first `n` characters,
/// or zero where there is none.
pub open spec fn last_top_comma(s: Seq<char>, n: int) -> int
    decreases n,
{
    if n <= 0 {
        0
    } else if s[n - 1] == ',' && depth_at(s, n - 1) == 0 {
        n - 1
    } else {
        last_top_comma(s, n - 1)
    }
}

/// `p` is the position of the first opening parenthesis of `s`.
pub open spec fn first_open(s: Seq<char>, p: int) -> bool {
    &&& 0 <= p < s.len()
    &&& s[p] == '('
    &&& forall|i: int| 0 <= i < p ==> s[i] != '('
}

pub open spec fn not_op() -> Seq<char> {
    seq!['n', 'o', 't']
}

/// The operator, left and right argument of `op(left, right)`. The operator
/// ends at the first `(`, the string must end with `)`, the parentheses in
/// between must balance, and the arguments split at the last comma at depth
/// zero; a `not` keeps its one argument whole as the right part. `None` for a
/// string of another shape.
pub open spec fn filter_parts(s: Seq<char>) -> Option<(Seq<char>, Seq<char>, Seq<char>)> {
    if exists|p: int| first_open(s, p) {
        let p = choose|p: int| first_open(s, p);
        let op = s.subrange(0, p);
        let inner = s.subrange(p + 1, s.len() - 1);
        if !(s.last() == ')' && p < s.len() - 1) {
            None
        } else if depth_at(inner, inner.len() as int) != 0 {
            None
        } else {
            let c = last_top_comma(inner, inner.len() as int);
            let left = inner.subrange(0, c);
            let right = inner.subrange(c, inner.len() as int);
            if op == not_op() {
                Some((op, left, right))
            } else if right.len() < 2 {
                None
            } else {
                Some((op, left, right.subrange(2, right.len() as int)))
            }
        }
    } else {
        None
    }
}

/// A comparison of a column with a literal.
#[derive(Debug, Clone, Copy, PartialEq, Eq, Structural)]
pub enum CompareOp {
    Eq,
    NotEq,
    Gt,
    GtEq,
    Lt,
    LtEq,
}

/// A literal, typed by the column it is compared with. A `Float` keeps the
/// literal's text; it is read as a number where the predicate is evaluated.
#[derive(Debug, Clone, PartialEq, Eq)]
pub enum Literal {
    Float(String),
    Utf8(String),
}

/// A boolean predicate over the columns of a row.
#[derive(Debug, PartialEq, Eq)]
pub enum FilterExpr {
    IsNull(String),
    IsNotNull(String),
    Not(Box<FilterExpr>),
    And(Box<FilterExpr>, Box<FilterExpr>),
    Or(Box<FilterExpr>, Box<FilterExpr>),
    Compare(CompareOp, String, Literal),
    /// The predicate of an operator that is not known: it holds of every row.
    Wildcard,
}

pub enum LiteralSpec {
    Float(Seq<char>),
    Utf8(Seq<char>),
}

/// The mathematical value of a `FilterExpr`.
pub enum FilterSpec {
    IsNull(Seq<char>),
    IsNotNull(Seq<char>),
    Not(Box<FilterSpec>),
    And(Box<FilterSpec>, Box<FilterSpec>),
    Or(Box<FilterSpec>, Box<FilterSpec>),
    Compare(CompareOp, Seq<char>, LiteralSpec),
    Wildcard,
}

pub open spec fn literal_view(l: Literal) -> LiteralSpec {
    match l {
        Literal::Float(t) => LiteralSpec::Float(t@),
        Literal::Utf8(t) => LiteralSpec::Utf8(t@),
    }
}

pub open spec fn filter_view(e: FilterExpr) -> FilterSpec
    decreases e,
{
    match e {
        FilterExpr::IsNull(c) => FilterSpec::IsNull(c@),
        FilterExpr::IsNotNull(c) => FilterSpec::IsNotNull(c@),
        FilterExpr::Not(a) => FilterSpec::Not(Box::new(filter_view(*a))),
        FilterExpr::And(a, b) => FilterSpec::And(
            Box::new(filter_view(*a)),
            Box::new(filter_view(*b)),
        ),
        FilterExpr::Or(a, b) => FilterSpec::Or(Box::new(filter_view(*a)), Box::new(filter_view(*b))),
        FilterExpr::Compare(op, c, l) => FilterSpec::Compare(op, c@, literal_view(l)),
        FilterExpr::Wildcard => FilterSpec::Wildcard,
    }
}

/// A column-to-type map as pairs of names.
pub open spec fn schema_view(schema: Seq<(String, String)>) -> Seq<(Seq<char>, Seq<char>)> {
    schema.map_values(|p: (String, String)| (p.0@, p.1@))
}

/// The type of the first entry for `column`.
pub open spec fn type_of(schema: Seq<(Seq<char>, Seq<char>)>, column: Seq<char>) -> Option<Seq<char>>
    decreases schema.len(),
{
    if schema.len() == 0 {
        None
    } else if schema[0].0 == column {
        Some(schema[0].1)
    } else {
        type_of(schema.drop_first(), column)
    }
}

pub open spec fn word_null() -> Seq<char> {
    seq!['n', 'u', 'l', 'l']
}

pub open spec fn word_float() -> Seq<char> {
    seq!['f', 'l', 'o', 'a', 't']
}

pub open spec fn word_and() -> Seq<char> {
    seq!['a', 'n', 'd']
}

pub open spec fn word_or() -> Seq<char> {
    seq!['o', 'r']
}

pub open spec fn compare_op_of(op: Seq<char>) -> Option<CompareOp> {
    if op == seq!['e', 'q'] {
        Some(CompareOp::Eq)
    } else if op == seq!['n', 'o', 't', 'e', 'q'] {
        Some(CompareOp::NotEq)
    } else if op == seq!['g', 't'] {
        Some(CompareOp::Gt)
    } else if op == seq!['g', 't', 'e', 'q'] {
        Some(CompareOp::GtEq)
    } else if op == seq!['l', 't'] {
        Some(CompareOp::Lt)
    } else if op == seq!['l', 't', 'e', 'q'] {
        Some(CompareOp::LtEq)
    } else {
        None
    }
}

/// The literal `value` compared with `column`: a float where the column's
/// type is `float`, else a string. `None` where the column has no type.
pub open spec fn literal_of(
    schema: Seq<(Seq<char>, Seq<char>)>,
    column: Seq<char>,
    value: Seq<char>,
) -> Option<LiteralSpec> {
    match type_of(schema, column) {
        None => None,
        Some(t) => if t == word_float() {
            Some(LiteralSpec::Float(value))
        } else {
            Some(LiteralSpec::Utf8(value))
        },
    }
}

/// The predicate that a filter string denotes. `eq` and `noteq` against
/// `null` test for null; `not`, `and` and `or` combine sub-filters; the
/// comparisons take a literal typed by the column; another operator gives the
/// predicate that always holds. `None` for a malformed string or a compared
/// column without a type.
pub open spec fn parse_spec(s: Seq<char>, schema: Seq<(Seq<char>, Seq<char>)>) -> Option<FilterSpec>
    decreases s.len(),
    via parse_spec_decreases
{
    match filter_parts(s) {
        None => None,
        Some(parts) => {
            let op = parts.0;
            let left = parts.1;
            let right = parts.2;
            if right == word_null() {
                if op == seq!['e', 'q'] {
                    Some(FilterSpec::IsNull(left))
                } else if op == seq!['n', 'o', 't', 'e', 'q'] {
                    Some(FilterSpec::IsNotNull(left))
                } else {
                    Some(FilterSpec::Wildcard)
                }
            } else if op == not_op() {
                match parse_spec(right, schema) {
                    Some(e) => Some(FilterSpec::Not(Box::new(e))),
                    None => None,
                }
            } else if op == word_or() || op == word_and() {
                match (parse_spec(left, schema), parse_spec(right, schema)) {
                    (Some(a), Some(b)) => if op == word_or() {
                        Some(FilterSpec::Or(Box::new(a), Box::new(b)))
                    } else {
                        Some(FilterSpec::And(Box::new(a), Box::new(b)))
                    },
                    _ => None,
                }
            } else {
                match compare_op_of(op) {
                    Some(cmp) => match literal_of(schema, left, right) {
                        Some(l) => Some(FilterSpec::Compare(cmp, left, l)),
                        None => None,
                    },
                    None => Some(FilterSpec::Wildcard),
                }
            }
        },
    }
}

proof fn lemma_parts_shorter(s: Seq<char>)
    ensures
        filter_parts(s) matches Some(t) ==> t.1.len() < s.len() && t.2.len() < s.len(),
{
    if exists|p: int| first_open(s, p) {
        let p = choose|p: int| first_open(s, p);
        let inner = s.subrange(p + 1, s.len() - 1);
        if s.last() == ')' && p < s.len() - 1 {
            lemma_last_top_comma_bound(inner, inner.len() as int);
        }
    }
}

#[via_fn]
proof fn parse_spec_decreases(s: Seq<char>, schema: Seq<(Seq<char>, Seq<char>)>) {
    lemma_parts_shorter(s);
}

proof fn lemma_last_top_comma_bound(s: Seq<char>, n: int)
    requires
        0 <= n,
    ensures
        0 <= last_top_comma(s, n) <= n,
    decreases n,
{
    if n > 0 {
        lemma_last_top_comma_bound(s, n - 1);
    }
}

impl Parser {
    /// Splits `op(left, right)` into its operator and its two arguments.
    pub fn parse_filter_str(filter: String) -> (r: Option<(String, String, String)>)
        ensures
            match r {
                Some(t) => filter_parts(filter@) == Some((t.0@, t.1@, t.2@)),
                None => filter_parts(filter@) is None,
            },
    {
        let s = chars_of(filter.as_str());
        let n = s.len();
        let mut p: usize = 0;
        while p < n && s[p] != '('
            invariant
                p <= n,
                n == s@.len(),
                forall|i: int| 0 <= i < p ==> s@[i] != '(',
            decreases n - p,
        {
            p += 1;
        }
        if p == n {
            proof {
                assert forall|q: int| !first_open(s@, q) by {
                    if first_open(s@, q) {
                        assert(s@[q] != '(');
                    }
                }
            }
            return None;
        }
        proof {
            assert(first_open(s@, p as int));
            let q = choose|q: int| first_open(s@, q);
            if q < p {
                assert(s@[q] != '(');
            }
            if q > p {
                assert(s@[p as int] != '(');
            }
            assert(q == p);
        }
        if !(s[n - 1] == ')' && p < n - 1) {
            return None;
        }
        let lo = p + 1;
        let hi = n - 1;
        let ghost inner = s@.subrange(lo as int, hi as int);
        let mut i: usize = lo;
        let mut opens: usize = 0;
        let mut closes: usize = 0;
        let mut left_offset: usize = 0;
        while i < hi
            invariant
                lo <= i <= hi,
                hi < n,
                n == s@.len(),
                inner == s@.subrange(lo as int, hi as int),
                opens <= i - lo,
                closes <= i - lo,
                opens - closes == depth_at(inner, i - lo),
                left_offset as int == last_top_comma(inner, i - lo),
            decreases hi - i,
        {
            let c = s[i];
            assert(inner[i - lo] == c);
            if c == '(' {
                opens += 1;
            } else if c == ')' {
                closes += 1;
            } else if c == ',' && opens == closes {
                left_offset = i - lo;
            }
            i += 1;
        }
        if opens != closes {
            return None;
        }
        proof {
            lemma_last_top_comma_bound(inner, inner.len() as int);
        }
        let op = string_of(&s, 0, p);
        let left = string_of(&s, lo, lo + left_offset);
        let is_not = p == 3 && s[0] == 'n' && s[1] == 'o' && s[2] == 't';
        proof {
            assert(op@ == not_op() <==> is_not) by {
                let t = not_op();
                assert(t.len() == 3 && t[0] == 'n' && t[1] == 'o' && t[2] == 't');
                assert(op@.len() == p);
                if op@ == not_op() {
                    assert(op@[0] == s@[0] && op@[1] == s@[1] && op@[2] == s@[2]);
                }
                if is_not {
                    assert(op@ =~= not_op());
                }
            }
            assert(left@ =~= inner.subrange(0, left_offset as int));
        }
        if is_not {
            let right = string_of(&s, lo + left_offset, hi);
            proof {
                assert(right@ =~= inner.subrange(left_offset as int, inner.len() as int));
            }
            Some((op, left, right))
        } else {
            if hi - (lo + left_offset) < 2 {
                return None;
            }
            let right = string_of(&s, lo + left_offset + 2, hi);
            proof {
                let whole = inner.subrange(left_offset as int, inner.len() as int);
                assert(right@ =~= whole.subrange(2, whole.len() as int));
            }
            Some((op, left, right))
        }
    }

    /// Parses a filter string into a predicate, given each column's type
    /// name. `None` for a malformed string or a compared column without a type.
    pub fn parse(filter: String, schema: &Vec<(String, String)>) -> (r: Option<FilterExpr>)
        ensures
            match r {
                Some(e) => parse_spec(filter@, schema_view(schema@)) == Some(filter_view(e)),
                None => parse_spec(filter@, schema_view(schema@)) is None,
            },
        decreases filter@.len(),
    {
        proof {
            lemma_parts_shorter(filter@);
            reveal_strlit("null");
            reveal_strlit("eq");
            reveal_strlit("noteq");
            reveal_strlit("not");
            reveal_strlit("or");
            reveal_strlit("and");
            assert("null"@ =~= word_null());
            assert("eq"@ =~= seq!['e', 'q']);
            assert("noteq"@ =~= seq!['n', 'o', 't', 'e', 'q']);
            assert("not"@ =~= not_op());
            assert("or"@ =~= word_or());
            assert("and"@ =~= word_and());
        }
        let ghost sv = schema_view(schema@);
        let parts = Parser::parse_filter_str(filter);
        match parts {
            None => None,
            Some((op, left, right)) => {
                if is_word(&right, "null") {
                    if is_word(&op, "eq") {
                        Some(FilterExpr::IsNull(left))
                    } else if is_word(&op, "noteq") {
                        Some(FilterExpr::IsNotNull(left))
                    } else {
                        Some(FilterExpr::Wildcard)
                    }
                } else if is_word(&op, "not") {
                    match Parser::parse(right, schema) {
                        Some(e) => Some(FilterExpr::Not(Box::new(e))),
                        None => None,
                    }
                } else if is_word(&op, "or") || is_word(&op, "and") {
                    let is_or = is_word(&op, "or");
                    let a = Parser::parse(left, schema);
                    let b = Parser::parse(right, schema);
                    match (a, b) {
                        (Some(a), Some(b)) => if is_or {
                            Some(FilterExpr::Or(Box::new(a), Box::new(b)))
                        } else {
                            Some(FilterExpr::And(Box::new(a), Box::new(b)))
                        },
                        _ => None,
                    }
                } else {
                    match compare_op(&op) {
                        Some(cmp) => match Parser::parse_literal(&left, right, schema) {
                            Some(l) => Some(FilterExpr::Compare(cmp, left, l)),
                            None => None,
                        },
                        None => Some(FilterExpr::Wildcard),
                    }
                }
            },
        }
    }

    /// The literal `value` compared with `column`, typed by the column's type.
    fn parse_literal(column: &String, value: String, schema: &Vec<(String, String)>) -> (r: Option<
        Literal,
    >)
        ensures
            match r {
                Some(l) => literal_of(schema_view(schema@), column@, value@) == Some(literal_view(l)),
                None => literal_of(schema_view(schema@), column@, value@) is None,
            },
    {
        proof {
            reveal_strlit("float");
            assert("float"@ =~= word_float());
        }
        match lookup_type(schema, column) {
            None => None,
            Some(t) => if is_word(&t, "float") {
                Some(Literal::Float(value))
            } else {
                Some(Literal::Utf8(value))
            },
        }
    }
}

fn compare_op(op: &String) -> (r: Option<CompareOp>)
    ensures
        r == compare_op_of(op@),
{
    proof {
        reveal_strlit("eq");
        reveal_strlit("noteq");
        reveal_strlit("gt");
        reveal_strlit("gteq");
        reveal_strlit("lt");
        reveal_strlit("lteq");
        assert("eq"@ =~= seq!['e', 'q']);
        assert("noteq"@ =~= seq!['n', 'o', 't', 'e', 'q']);
        assert("gt"@ =~= seq!['g', 't']);
        assert("gteq"@ =~= seq!['g', 't', 'e', 'q']);
        assert("lt"@ =~= seq!['l', 't']);
        assert("lteq"@ =~= seq!['l', 't', 'e', 'q']);
    }
    if is_word(op, "eq") {
        Some(CompareOp::Eq)
    } else if is_word(op, "noteq") {
        Some(CompareOp::NotEq)
    } else if is_word(op, "gt") {
        Some(CompareOp::Gt)
    } else if is_word(op, "gteq") {
        Some(CompareOp::GtEq)
    } else if is_word(op, "lt") {
        Some(CompareOp::Lt)
    } else if is_word(op, "lteq") {
        Some(CompareOp::LtEq)
    } else {
        None
    }
}

/// The type name of the first entry for `column`.
fn lookup_type(schema: &Vec<(String, String)>, column: &String) -> (r: Option<String>)
    ensures
        match r {
            Some(t) => type_of(schema_view(schema@), column@) == Some(t@),
            None => type_of(schema_view(schema@), column@) is None,
        },
{
    let ghost sv = schema_view(schema@);
    let mut i: usize = 0;
    assert(sv.subrange(0, sv.len() as int) =~= sv);
    while i < schema.len()
        invariant
            i <= schema@.len(),
            sv == schema_view(schema@),
            type_of(sv, column@) == type_of(sv.subrange(i as int, sv.len() as int), column@),
        decreases schema@.len() - i,
    {
        proof {
            let rest = sv.subrange(i as int, sv.len() as int);
            assert(rest.drop_first() =~= sv.subrange(i + 1, sv.len() as int));
            assert(rest[0] == (schema@[i as int].0@, schema@[i as int].1@));
        }
        if schema[i].0 == *column {
            return Some(schema[i].1.clone());
        }
        i += 1;
    }
    assert(sv.subrange(i as int, sv.len() as int).len() == 0);
    None
}

} // verus!
