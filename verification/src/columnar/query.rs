//! Predicates over the rows of a table, and queries that select rows.

use crate::columnar::column::Column;
use crate::columnar::layout::{file_get_bytes, file_is_null};
use crate::columnar::schema::lemma_first_named;
use crate::columnar::table::Table;
use crate::error::Error;
use crate::utils::text::{
    bytes_contain_text, bytes_eq, bytes_less, bytes_less_or_equal, lex_less, lex_less_or_equal,
    text_contains,
};
use vstd::prelude::*;
use vstd::slice::slice_to_vec;

verus! {

/// How a column is compared with a literal.
#[derive(Debug, Clone, Copy, PartialEq, Eq, Structural)]
pub enum Operator {
    /// Equal to the literal.
    Eq,
    /// Not equal to the literal.
    Ne,
    /// Before the literal.
    Lt,
    /// Before or equal to the literal.
    Le,
    /// After the literal.
    Gt,
    /// After or equal to the literal.
    Ge,
    /// The row is null.
    IsNull,
    /// The row is not null.
    IsNotNull,
    /// The text of the literal occurs in the text of the row.
    Like,
    /// The text of the literal does not occur in the text of the row.
    NotLike,
    /// Membership in a set; no row is a member.
    In,
    /// Non-membership in a set; every row that has bytes is a non-member.
    NotIn,
}

/// A condition on the rows of a table.
#[derive(Debug)]
pub enum Predicate {
    /// Compares a column with a literal.
    Compare {
        /// The name of the column.
        column: String,
        /// The comparison.
        op: Operator,
        /// The literal.
        value: Option<Vec<u8>>,
    },
    /// All of the conditions hold.
    And(Vec<Predicate>),
    /// One of the conditions holds.
    Or(Vec<Predicate>),
    /// The condition does not hold.
    Not(Box<Predicate>),
    /// Holds of every row.
    True,
    /// Holds of no row.
    False,
}

/// Whether the bytes of a row stand in the relation `op` to a literal.
/// The order is that of byte strings. The operators on nulls compare nothing.
pub open spec fn compare_bytes(op: Operator, row: Seq<u8>, literal: Seq<u8>) -> bool {
    match op {
        Operator::Eq => row == literal,
        Operator::Ne => row != literal,
        Operator::Lt => lex_less(row, literal),
        Operator::Le => lex_less_or_equal(row, literal),
        Operator::Gt => lex_less(literal, row),
        Operator::Ge => lex_less_or_equal(literal, row),
        Operator::Like => text_contains(row, literal),
        Operator::NotLike => !text_contains(row, literal),
        Operator::In => false,
        Operator::NotIn => true,
        Operator::IsNull => false,
        Operator::IsNotNull => false,
    }
}

/// Whether a comparison holds of row `row`. It fails where the table has no
/// such column. The operators on nulls ask the null bitmap alone; every
/// other fails on a null row, on a row without bytes and without a literal.
pub open spec fn compare_holds(
    column: Option<Column>,
    op: Operator,
    value: Option<Vec<u8>>,
    row: int,
) -> bool {
    match column {
        None => false,
        Some(c) => match op {
            Operator::IsNull => file_is_null(c.file(), row),
            Operator::IsNotNull => !file_is_null(c.file(), row),
            _ => match (file_get_bytes(c.file(), row), value) {
                (Some(b), Some(v)) => compare_bytes(op, b, v@),
                _ => false,
            },
        },
    }
}

/// Whether all conditions from index `from` on hold of row `row`.
pub open spec fn all_hold(ps: Seq<Predicate>, table: Table, row: int, from: int) -> bool
    decreases ps, ps.len() - from,
{
    if 0 <= from < ps.len() {
        holds(ps[from], table, row) && all_hold(ps, table, row, from + 1)
    } else {
        true
    }
}

/// Whether one of the conditions from index `from` on holds of row `row`.
pub open spec fn any_holds(ps: Seq<Predicate>, table: Table, row: int, from: int) -> bool
    decreases ps, ps.len() - from,
{
    if 0 <= from < ps.len() {
        holds(ps[from], table, row) || any_holds(ps, table, row, from + 1)
    } else {
        false
    }
}

/// Whether the predicate holds of row `row` of the table.
pub open spec fn holds(p: Predicate, table: Table, row: int) -> bool
    decreases p,
{
    match p {
        Predicate::Compare { column, op, value } => compare_holds(
            table.spec_column(column@),
            op,
            value,
            row,
        ),
        Predicate::And(ps) => all_hold(ps@, table, row, 0),
        Predicate::Or(ps) => any_holds(ps@, table, row, 0),
        Predicate::Not(q) => !holds(*q, table, row),
        Predicate::True => true,
        Predicate::False => false,
    }
}

/// Whether two predicates say the same: they are built alike, name the same
/// columns and compare with the same bytes.
pub open spec fn same_predicate(a: Predicate, b: Predicate) -> bool
    decreases a,
{
    match (a, b) {
        (
            Predicate::Compare { column: c1, op: o1, value: v1 },
            Predicate::Compare { column: c2, op: o2, value: v2 },
        ) => c1@ == c2@ && o1 == o2 && match (v1, v2) {
            (Some(x), Some(y)) => x@ == y@,
            (None, None) => true,
            _ => false,
        },
        (Predicate::And(p), Predicate::And(q)) => same_predicates(p@, q@, 0),
        (Predicate::Or(p), Predicate::Or(q)) => same_predicates(p@, q@, 0),
        (Predicate::Not(p), Predicate::Not(q)) => same_predicate(*p, *q),
        (Predicate::True, Predicate::True) => true,
        (Predicate::False, Predicate::False) => true,
        _ => false,
    }
}

/// Whether two lists of predicates are as long as each other and say the
/// same from index `from` on.
pub open spec fn same_predicates(a: Seq<Predicate>, b: Seq<Predicate>, from: int) -> bool
    decreases a, a.len() - from,
{
    a.len() == b.len() && (0 <= from < a.len() ==> same_predicate(a[from], b[from])
        && same_predicates(a, b, from + 1))
}

/// Predicates that say the same hold of the same rows.
pub proof fn lemma_same_predicate(a: Predicate, b: Predicate, table: Table, row: int)
    requires
        same_predicate(a, b),
    ensures
        holds(a, table, row) == holds(b, table, row),
    decreases a,
{
    match (a, b) {
        (Predicate::And(p), Predicate::And(q)) => {
            lemma_same_predicates(p@, q@, table, row, 0);
        },
        (Predicate::Or(p), Predicate::Or(q)) => {
            lemma_same_predicates(p@, q@, table, row, 0);
        },
        (Predicate::Not(p), Predicate::Not(q)) => {
            lemma_same_predicate(*p, *q, table, row);
        },
        _ => {},
    }
}

/// Lists of predicates that say the same hold of the same rows, all of them
/// or one of them.
pub proof fn lemma_same_predicates(
    a: Seq<Predicate>,
    b: Seq<Predicate>,
    table: Table,
    row: int,
    from: int,
)
    requires
        0 <= from,
        same_predicates(a, b, from),
    ensures
        all_hold(a, table, row, from) == all_hold(b, table, row, from),
        any_holds(a, table, row, from) == any_holds(b, table, row, from),
    decreases a, a.len() - from,
{
    if from < a.len() {
        lemma_same_predicate(a[from], b[from], table, row);
        lemma_same_predicates(a, b, table, row, from + 1);
    }
}

impl Clone for Predicate {
    /// A copy that says the same as the predicate.
    fn clone(&self) -> (r: Predicate)
        ensures
            same_predicate(*self, r),
        decreases self,
    {
        match self {
            Predicate::Compare { column, op, value } => {
                let value: Option<Vec<u8>> = match value {
                    Some(v) => {
                        let copy: Vec<u8> = v.clone();
                        assert(copy@ =~= v@);
                        Some(copy)
                    },
                    None => None,
                };
                Predicate::Compare { column: column.clone(), op: *op, value }
            },
            Predicate::And(predicates) => {
                assert(self->And_0 == *predicates);
                Predicate::And(clone_all(predicates))
            },
            Predicate::Or(predicates) => {
                assert(self->Or_0 == *predicates);
                Predicate::Or(clone_all(predicates))
            },
            Predicate::Not(predicate) => {
                let inner: Predicate = (**predicate).clone();
                Predicate::Not(Box::new(inner))
            },
            Predicate::True => Predicate::True,
            Predicate::False => Predicate::False,
        }
    }
}

/// Copies of the predicates that say the same.
fn clone_all(predicates: &Vec<Predicate>) -> (r: Vec<Predicate>)
    ensures
        same_predicates(predicates@, r@, 0),
    decreases predicates,
{
    let mut copies: Vec<Predicate> = Vec::new();
    let mut i: usize = 0;
    while i < predicates.len()
        invariant
            i <= predicates@.len(),
            copies@.len() == i,
            forall|j: int|
                0 <= j < i ==> same_predicate(predicates@[j], #[trigger] copies@[j]),
        decreases predicates@.len() - i,
    {
        assert(decreases_to!(*predicates => predicates@[i as int])) by {
            assert(decreases_to!(*predicates => predicates@));
            assert(decreases_to!(predicates@ => predicates@[i as int]));
        }
        copies.push(predicates[i].clone());
        i += 1;
    }
    proof {
        lemma_same_from(predicates@, copies@, 0);
    }
    copies
}

proof fn lemma_same_from(a: Seq<Predicate>, b: Seq<Predicate>, from: int)
    requires
        a.len() == b.len(),
        0 <= from,
        forall|j: int| 0 <= j < a.len() ==> same_predicate(a[j], #[trigger] b[j]),
    ensures
        same_predicates(a, b, from),
    decreases a.len() - from,
{
    if from < a.len() {
        lemma_same_from(a, b, from + 1);
    }
}

/// Whether the bytes of a row stand in the relation `op` to a literal.
fn compare_values(op: Operator, row: &[u8], literal: &[u8]) -> (r: bool)
    ensures
        r == compare_bytes(op, row@, literal@),
{
    match op {
        Operator::Eq => bytes_eq(row, literal),
        Operator::Ne => !bytes_eq(row, literal),
        Operator::Lt => bytes_less(row, literal),
        Operator::Le => bytes_less_or_equal(row, literal),
        Operator::Gt => bytes_less(literal, row),
        Operator::Ge => bytes_less_or_equal(literal, row),
        Operator::Like => bytes_contain_text(row, literal),
        Operator::NotLike => !bytes_contain_text(row, literal),
        Operator::In => false,
        Operator::NotIn => true,
        _ => false,
    }
}

impl Predicate {
    /// Whether the predicate holds of row `row_index` of the table.
    pub fn evaluate(&self, table: &Table, row_index: u64) -> (r: bool)
        ensures
            r == holds(*self, *table, row_index as int),
        decreases self,
    {
        match self {
            Predicate::Compare { column, op, value } => {
                match table.column(column.as_str()) {
                    Some(col) => match op {
                        Operator::IsNull => col.is_null(row_index),
                        Operator::IsNotNull => !col.is_null(row_index),
                        _ => {
                            match col.get_bytes(row_index) {
                                Some(row_value) => match value {
                                    Some(compare_value) => compare_values(
                                        *op,
                                        row_value,
                                        compare_value.as_slice(),
                                    ),
                                    None => false,
                                },
                                None => false,
                            }
                        },
                    },
                    None => false,
                }
            },
            Predicate::And(predicates) => {
                let mut i: usize = 0;
                while i < predicates.len()
                    invariant
                        i <= predicates@.len(),
                        *self == Predicate::And(*predicates),
                        all_hold(predicates@, *table, row_index as int, 0) == all_hold(
                            predicates@,
                            *table,
                            row_index as int,
                            i as int,
                        ),
                    decreases predicates@.len() - i,
                {
                    assert(decreases_to!(*self => predicates@[i as int])) by {
                        assert(self->And_0 == *predicates);
                        assert(decreases_to!(*self => self->And_0));
                        assert(decreases_to!(*predicates => predicates@));
                        assert(decreases_to!(predicates@ => predicates@[i as int]));
                    }
                    if !predicates[i].evaluate(table, row_index) {
                        return false;
                    }
                    i += 1;
                }
                true
            },
            Predicate::Or(predicates) => {
                let mut i: usize = 0;
                while i < predicates.len()
                    invariant
                        i <= predicates@.len(),
                        *self == Predicate::Or(*predicates),
                        any_holds(predicates@, *table, row_index as int, 0) == any_holds(
                            predicates@,
                            *table,
                            row_index as int,
                            i as int,
                        ),
                    decreases predicates@.len() - i,
                {
                    assert(decreases_to!(*self => predicates@[i as int])) by {
                        assert(self->Or_0 == *predicates);
                        assert(decreases_to!(*self => self->Or_0));
                        assert(decreases_to!(*predicates => predicates@));
                        assert(decreases_to!(predicates@ => predicates@[i as int]));
                    }
                    if predicates[i].evaluate(table, row_index) {
                        return true;
                    }
                    i += 1;
                }
                false
            },
            Predicate::Not(predicate) => !predicate.evaluate(table, row_index),
            Predicate::True => true,
            Predicate::False => false,
        }
    }
}

/// The rows below `upto` of which the predicate holds, in ascending order.
pub open spec fn matches_upto(p: Predicate, table: Table, upto: int) -> Seq<int>
    decreases upto,
{
    if upto <= 0 {
        Seq::empty()
    } else if holds(p, table, upto - 1) {
        matches_upto(p, table, upto - 1).push(upto - 1)
    } else {
        matches_upto(p, table, upto - 1)
    }
}

/// What is left of `matches` when the first `offset` are skipped and at most
/// `limit` are taken.
pub open spec fn window(matches: Seq<int>, offset: int, limit: Option<u64>) -> Seq<int> {
    let from = if offset < matches.len() {
        offset
    } else {
        matches.len() as int
    };
    let to = match limit {
        Some(l) => if from + l < matches.len() {
            from + l
        } else {
            matches.len() as int
        },
        None => matches.len() as int,
    };
    matches.subrange(from, to)
}

/// A query without matches to take gives no rows: an offset at or behind
/// the number of matches skips them all, and a limit of zero takes none.
pub proof fn lemma_window_empty(matches: Seq<int>, offset: int, limit: Option<u64>)
    requires
        0 <= offset,
        offset >= matches.len() || limit == Some(0u64),
    ensures
        window(matches, offset, limit).len() == 0,
{
}

/// The matches below a row are the first of the matches below a later row.
pub proof fn lemma_matches_prefix(p: Predicate, table: Table, a: int, b: int)
    requires
        0 <= a <= b,
    ensures
        matches_upto(p, table, a).len() <= matches_upto(p, table, b).len(),
        matches_upto(p, table, b).subrange(0, matches_upto(p, table, a).len() as int)
            == matches_upto(p, table, a),
    decreases b - a,
{
    if a < b {
        lemma_matches_prefix(p, table, a, b - 1);
        assert(matches_upto(p, table, b).subrange(0, matches_upto(p, table, a).len() as int)
            =~= matches_upto(p, table, b - 1).subrange(
            0,
            matches_upto(p, table, a).len() as int,
        ));
    } else {
        assert(matches_upto(p, table, b).subrange(0, matches_upto(p, table, a).len() as int)
            =~= matches_upto(p, table, a));
    }
}

/// There are no more matches below a row than rows.
pub proof fn lemma_matches_len(p: Predicate, table: Table, upto: int)
    requires
        0 <= upto,
    ensures
        matches_upto(p, table, upto).len() <= upto,
    decreases upto,
{
    if upto > 0 {
        lemma_matches_len(p, table, upto - 1);
    }
}

/// Whether a value of a result is the bytes of a row, or null like the row.
pub open spec fn value_is(value: Option<Vec<u8>>, bytes: Option<Seq<u8>>) -> bool {
    match (value, bytes) {
        (Some(v), Some(b)) => v@ == b,
        (None, None) => true,
        _ => false,
    }
}

/// Whether `row` gives, for each selected column in order, the name of the
/// column and what row `index` of the table holds in it.
pub open spec fn row_is(
    row: Seq<(String, Option<Vec<u8>>)>,
    table: Table,
    columns: Seq<String>,
    index: int,
) -> bool {
    &&& row.len() == columns.len()
    &&& forall|j: int|
        0 <= j < columns.len() ==> (#[trigger] row[j]).0@ == columns[j]@ && table.spec_column(
            columns[j]@,
        ) is Some && value_is(
            row[j].1,
            file_get_bytes(table.spec_column(columns[j]@).unwrap().file(), index),
        )
}

/// A query: the rows of a table of which a predicate holds, with some of
/// their columns.
pub struct Query<'a> {
    table: Table<'a>,
    columns: Vec<String>,
    predicate: Predicate,
    limit: Option<u64>,
    offset: u64,
}

impl<'a> Query<'a> {
    /// The table that is queried.
    pub closed spec fn spec_table(&self) -> Table<'a> {
        self.table
    }

    /// The names of the selected columns.
    pub closed spec fn spec_columns(&self) -> Seq<String> {
        self.columns@
    }

    /// The predicate.
    pub closed spec fn spec_predicate(&self) -> Predicate {
        self.predicate
    }

    /// The greatest number of rows to give, if there is one.
    pub closed spec fn spec_limit(&self) -> Option<u64> {
        self.limit
    }

    /// The number of matches to skip.
    pub closed spec fn spec_offset(&self) -> u64 {
        self.offset
    }

    /// The rows that the query selects, in ascending order.
    pub open spec fn selected(&self) -> Seq<int> {
        window(
            matches_upto(
                self.spec_predicate(),
                self.spec_table(),
                self.spec_table().spec_row_count() as int,
            ),
            self.spec_offset() as int,
            self.spec_limit(),
        )
    }

    /// Whether the table has every selected column.
    pub open spec fn columns_exist(&self) -> bool {
        forall|j: int|
            0 <= j < self.spec_columns().len() ==> self.spec_table().spec_column(
                (#[trigger] self.spec_columns()[j])@,
            ) is Some
    }

    /// A query for all matches, from the first.
    pub fn new(table: Table<'a>, columns: Vec<String>, predicate: Predicate) -> (r: Query<'a>)
        ensures
            r.spec_table() == table,
            r.spec_columns() == columns@,
            r.spec_predicate() == predicate,
            r.spec_limit() is None,
            r.spec_offset() == 0,
    {
        Query { table, columns, predicate, limit: None, offset: 0 }
    }

    /// The query with at most `limit` rows.
    pub fn with_limit(self, limit: u64) -> (r: Query<'a>)
        ensures
            r.spec_table() == self.spec_table(),
            r.spec_columns() == self.spec_columns(),
            r.spec_predicate() == self.spec_predicate(),
            r.spec_limit() == Some(limit),
            r.spec_offset() == self.spec_offset(),
    {
        let mut query = self;
        query.limit = Some(limit);
        query
    }

    /// The query without its first `offset` matches.
    pub fn with_offset(self, offset: u64) -> (r: Query<'a>)
        ensures
            r.spec_table() == self.spec_table(),
            r.spec_columns() == self.spec_columns(),
            r.spec_predicate() == self.spec_predicate(),
            r.spec_limit() == self.spec_limit(),
            r.spec_offset() == offset,
    {
        let mut query = self;
        query.offset = offset;
        query
    }

    /// The table that is queried.
    pub fn table(&self) -> (r: &Table<'a>)
        ensures
            *r == self.spec_table(),
    {
        &self.table
    }

    /// The values of row `row_index` in the selected columns.
    fn materialize(&self, indices: &Vec<usize>, row_index: u64) -> (r: Vec<(String, Option<Vec<u8>>)>)
        requires
            indices@.len() == self.columns@.len(),
            forall|j: int|
                0 <= j < indices@.len() ==> self.table.spec_schema().spec_field_index(
                    self.columns@[j]@,
                ) == Some(#[trigger] indices@[j] as int),
        ensures
            row_is(r@, self.table, self.columns@, row_index as int),
    {
        let columns = self.table.columns();
        let mut row: Vec<(String, Option<Vec<u8>>)> = Vec::new();
        let mut j: usize = 0;
        while j < self.columns.len()
            invariant
                j <= self.columns@.len(),
                indices@.len() == self.columns@.len(),
                columns@ == self.table.spec_columns(),
                columns@.len() == self.table.spec_schema().spec_fields().len(),
                forall|k: int|
                    0 <= k < indices@.len() ==> self.table.spec_schema().spec_field_index(
                        self.columns@[k]@,
                    ) == Some(#[trigger] indices@[k] as int),
                row@.len() == j,
                forall|k: int|
                    0 <= k < j ==> (#[trigger] row@[k]).0@ == self.columns@[k]@
                        && self.table.spec_column(self.columns@[k]@) is Some && value_is(
                        row@[k].1,
                        file_get_bytes(
                            self.table.spec_column(self.columns@[k]@).unwrap().file(),
                            row_index as int,
                        ),
                    ),
            decreases self.columns@.len() - j,
        {
            let index: usize = indices[j];
            proof {
                lemma_first_named(
                    self.table.spec_schema().spec_fields(),
                    self.columns@[j as int]@,
                    0,
                );
            }
            let value: Option<Vec<u8>> = match columns[index].get_bytes(row_index) {
                Some(bytes) => Some(slice_to_vec(bytes)),
                None => None,
            };
            row.push((self.columns[j].clone(), value));
            j += 1;
        }
        row
    }

    /// Runs the query: walks the rows in order, skips the first `offset`
    /// rows of which the predicate holds, and gives the next ones, up to
    /// `limit` of them, each with its values in the selected columns. Fails
    /// where the table lacks a selected column.
    pub fn execute(&self) -> (r: Result<Vec<Vec<(String, Option<Vec<u8>>)>>, Error>)
        ensures
            match r {
                Ok(rows) => self.columns_exist() && rows@.len() == self.selected().len()
                    && forall|k: int|
                    0 <= k < rows@.len() ==> row_is(
                        (#[trigger] rows@[k])@,
                        self.spec_table(),
                        self.spec_columns(),
                        self.selected()[k],
                    ),
                Err(e) => !self.columns_exist() && e is InvalidArgument,
            },
    {
        let mut indices: Vec<usize> = Vec::new();
        let mut j: usize = 0;
        while j < self.columns.len()
            invariant
                j <= self.columns@.len(),
                indices@.len() == j,
                forall|k: int|
                    0 <= k < j ==> self.table.spec_schema().spec_field_index(self.columns@[k]@)
                        == Some(#[trigger] indices@[k] as int),
                forall|k: int|
                    0 <= k < j ==> self.table.spec_column((#[trigger] self.columns@[k])@) is Some,
            decreases self.columns@.len() - j,
        {
            match self.table.schema().field_index(self.columns[j].as_str()) {
                Some(index) => {
                    indices.push(index);
                },
                None => {
                    assert(self.table.spec_column(self.columns@[j as int]@) is None);
                    return Err(Error::InvalidArgument("Column not found in table".to_owned()));
                },
            }
            j += 1;
        }
        let mut results: Vec<Vec<(String, Option<Vec<u8>>)>> = Vec::new();
        let no_rows: bool = match self.limit {
            Some(l) => l == 0,
            None => false,
        };
        if no_rows {
            return Ok(results);
        }
        let row_count: u64 = self.table.row_count();
        let mut seen: u64 = 0;
        let mut row_index: u64 = 0;
        let ghost total = matches_upto(self.predicate, self.table, row_count as int);
        while row_index < row_count
            invariant_except_break
                row_index <= row_count,
                row_count == self.table.spec_row_count(),
                total == matches_upto(self.predicate, self.table, row_count as int),
                !(self.limit == Some(0u64)),
                indices@.len() == self.columns@.len(),
                forall|k: int|
                    0 <= k < indices@.len() ==> self.table.spec_schema().spec_field_index(
                        self.columns@[k]@,
                    ) == Some(#[trigger] indices@[k] as int),
                seen == matches_upto(self.predicate, self.table, row_index as int).len(),
                seen <= row_index,
                results@.len() == window(
                    matches_upto(self.predicate, self.table, row_index as int),
                    self.offset as int,
                    self.limit,
                ).len(),
                self.limit matches Some(l) ==> results@.len() < l,
                forall|k: int|
                    0 <= k < results@.len() ==> row_is(
                        (#[trigger] results@[k])@,
                        self.table,
                        self.columns@,
                        window(
                            matches_upto(self.predicate, self.table, row_index as int),
                            self.offset as int,
                            self.limit,
                        )[k],
                    ),
            ensures
                results@.len() == window(total, self.offset as int, self.limit).len(),
                forall|k: int|
                    0 <= k < results@.len() ==> row_is(
                        (#[trigger] results@[k])@,
                        self.table,
                        self.columns@,
                        window(total, self.offset as int, self.limit)[k],
                    ),
            decreases row_count - row_index,
        {
            let ghost before = matches_upto(self.predicate, self.table, row_index as int);
            let ghost after = matches_upto(self.predicate, self.table, row_index + 1);
            let ghost shown = window(before, self.offset as int, self.limit);
            if self.predicate.evaluate(&self.table, row_index) {
                assert(after == before.push(row_index as int));
                if seen >= self.offset {
                    let row = self.materialize(&indices, row_index);
                    results.push(row);
                    proof {
                        let now = window(after, self.offset as int, self.limit);
                        assert(now =~= shown.push(row_index as int));
                        assert forall|k: int| 0 <= k < results@.len() implies row_is(
                            (#[trigger] results@[k])@,
                            self.table,
                            self.columns@,
                            now[k],
                        ) by {
                            if k < shown.len() {
                                assert(now[k] == shown[k]);
                            }
                        }
                    }
                    let full: bool = match self.limit {
                        Some(l) => results.len() as u64 >= l,
                        None => false,
                    };
                    if full {
                        proof {
                            lemma_matches_prefix(
                                self.predicate,
                                self.table,
                                row_index + 1,
                                row_count as int,
                            );
                            let now = window(after, self.offset as int, self.limit);
                            assert(window(total, self.offset as int, self.limit) =~= now);
                        }
                        break ;
                    }
                } else {
                    proof {
                        assert(window(after, self.offset as int, self.limit) =~= shown);
                    }
                }
                seen += 1;
            } else {
                assert(after == before);
            }
            row_index += 1;
        }
        Ok(results)
    }
}

/// Puts a query together step by step.
pub struct QueryBuilder<'a> {
    table: Table<'a>,
    columns: Vec<String>,
    predicate: Predicate,
    limit: Option<u64>,
    offset: u64,
}

impl<'a> QueryBuilder<'a> {
    /// The table that is queried.
    pub closed spec fn spec_table(&self) -> Table<'a> {
        self.table
    }

    /// The names of the selected columns.
    pub closed spec fn spec_columns(&self) -> Seq<String> {
        self.columns@
    }

    /// The predicate.
    pub closed spec fn spec_predicate(&self) -> Predicate {
        self.predicate
    }

    /// The greatest number of rows to give, if there is one.
    pub closed spec fn spec_limit(&self) -> Option<u64> {
        self.limit
    }

    /// The number of matches to skip.
    pub closed spec fn spec_offset(&self) -> u64 {
        self.offset
    }

    /// Whether the builder is `before` but for its columns, predicate,
    /// limit and offset, which are as given.
    pub open spec fn changed(
        &self,
        before: &QueryBuilder<'a>,
        columns: Seq<String>,
        predicate: Predicate,
        limit: Option<u64>,
        offset: u64,
    ) -> bool {
        &&& self.spec_table() == before.spec_table()
        &&& self.spec_columns() == columns
        &&& self.spec_predicate() == predicate
        &&& self.spec_limit() == limit
        &&& self.spec_offset() == offset
    }

    /// A builder of the query for all rows of the table with all columns
    /// of its schema.
    pub fn new(table: Table<'a>) -> (r: QueryBuilder<'a>)
        ensures
            r.spec_table() == table,
            r.spec_predicate() == Predicate::True,
            r.spec_limit() is None,
            r.spec_offset() == 0,
            r.spec_columns().len() == table.spec_schema().spec_fields().len(),
            forall|i: int|
                0 <= i < r.spec_columns().len() ==> (#[trigger] r.spec_columns()[i])@
                    == table.spec_schema().spec_fields()[i].name@,
    {
        let mut columns: Vec<String> = Vec::new();
        {
            let fields = table.schema().fields();
            let mut i: usize = 0;
            while i < fields.len()
                invariant
                    i <= fields@.len(),
                    fields@ == table.spec_schema().spec_fields(),
                    columns@.len() == i,
                    forall|j: int| 0 <= j < i ==> (#[trigger] columns@[j])@ == fields@[j].name@,
                decreases fields@.len() - i,
            {
                columns.push(fields[i].name.clone());
                i += 1;
            }
        }
        QueryBuilder { table, columns, predicate: Predicate::True, limit: None, offset: 0 }
    }

    /// Selects the named columns in place of those selected before.
    pub fn select(self, columns: Vec<String>) -> (r: QueryBuilder<'a>)
        ensures
            r.changed(&self, columns@, self.spec_predicate(), self.spec_limit(), self.spec_offset()),
    {
        let mut builder = self;
        builder.columns = columns;
        builder
    }

    /// Sets the predicate in place of the one set before.
    pub fn filter(self, predicate: Predicate) -> (r: QueryBuilder<'a>)
        ensures
            r.changed(&self, self.spec_columns(), predicate, self.spec_limit(), self.spec_offset()),
    {
        let mut builder = self;
        builder.predicate = predicate;
        builder
    }

    /// Sets the greatest number of rows to give.
    pub fn limit(self, limit: u64) -> (r: QueryBuilder<'a>)
        ensures
            r.changed(
                &self,
                self.spec_columns(),
                self.spec_predicate(),
                Some(limit),
                self.spec_offset(),
            ),
    {
        let mut builder = self;
        builder.limit = Some(limit);
        builder
    }

    /// Sets the number of matches to skip.
    pub fn offset(self, offset: u64) -> (r: QueryBuilder<'a>)
        ensures
            r.changed(&self, self.spec_columns(), self.spec_predicate(), self.spec_limit(), offset),
    {
        let mut builder = self;
        builder.offset = offset;
        builder
    }

    /// The query.
    pub fn build(self) -> (r: Query<'a>)
        ensures
            r.spec_table() == self.spec_table(),
            r.spec_columns() == self.spec_columns(),
            r.spec_predicate() == self.spec_predicate(),
            r.spec_limit() == self.spec_limit(),
            r.spec_offset() == self.spec_offset(),
    {
        Query {
            table: self.table,
            columns: self.columns,
            predicate: self.predicate,
            limit: self.limit,
            offset: self.offset,
        }
    }
}

} // verus!
