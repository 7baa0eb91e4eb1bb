//! Logical values and rows, and the parsed-statement types the store consumes.
//!
//! A [`Row`] is an association list from column name to [`Value`]. The order
//! of the pairs does not matter for lookup (the first pair with a given name
//! wins); the codec serializes fields in schema order, so a row decoded from
//! disk always comes back with its fields in schema order.

use vstd::prelude::*;

verus! {

/// The mathematical model of a [`Value`]: a 64-bit integer or a character
/// sequence.
pub enum ValModel {
    Int(i64),
    Text(Seq<char>),
}

/// A single field value: a 64-bit signed integer or a UTF-8 text string.
#[derive(Clone, Debug)]
pub enum Value {
    Integer(i64),
    Text(String),
}

impl View for Value {
    type V = ValModel;

    open spec fn view(&self) -> ValModel {
        match self {
            Value::Integer(i) => ValModel::Int(*i),
            Value::Text(s) => ValModel::Text(s@),
        }
    }
}

impl Value {
    /// A copy of this value. Unlike the derived `Clone`, the result is known
    /// to denote the same value.
    pub fn duplicate(&self) -> (r: Value)
        ensures
            r@ == self@,
    {
        match self {
            Value::Integer(i) => Value::Integer(*i),
            Value::Text(s) => Value::Text(s.clone()),
        }
    }
}

/// The model of a row: the name/value pairs in the order they were added.
pub type RowModel = Seq<(Seq<char>, ValModel)>;

/// One record: a mapping from column name to value.
#[derive(Clone, Debug)]
pub struct Row {
    pub values: Vec<(String, Value)>,
}

/// First value bound to `name` in `row`, if any.
pub open spec fn row_lookup(row: RowModel, name: Seq<char>) -> Option<ValModel>
    decreases row.len(),
{
    if row.len() == 0 {
        None
    } else if row[0].0 == name {
        Some(row[0].1)
    } else {
        row_lookup(row.drop_first(), name)
    }
}

impl View for Row {
    type V = RowModel;

    open spec fn view(&self) -> RowModel {
        self.values@.map_values(|p: (String, Value)| (p.0@, p.1@))
    }
}

impl Row {
    /// An empty row.
    pub fn new() -> (r: Row)
        ensures
            r@ == Seq::<(Seq<char>, ValModel)>::empty(),
    {
        Row { values: Vec::new() }
    }

    /// Binds `name` to `value`: replaces the first existing binding of that
    /// name, or appends a new one.
    pub fn set(&mut self, name: String, value: Value)
        ensures
            final(self)@ == row_set(old(self)@, name@, value@),
    {
        let ghost n = name@;
        let ghost v = value@;
        let mut i: usize = 0;
        while i < self.values.len()
            invariant
                0 <= i <= self.values.len(),
                self@ == old(self)@,
                n == name@,
                v == value@,
                forall|j: int| 0 <= j < i ==> old(self)@[j].0 != n,
            decreases self.values.len() - i,
        {
            if self.values[i].0 == name {
                self.values.set(i, (name, value));
                proof {
                    lemma_row_set_at(old(self)@, n, v, i as int);
                    assert(self@ =~= row_set(old(self)@, n, v));
                }
                return ;
            }
            i += 1;
        }
        self.values.push((name, value));
        proof {
            lemma_row_set_absent(old(self)@, n, v);
            assert(self@ =~= row_set(old(self)@, n, v));
        }
    }

    /// A copy of this row. Unlike the derived `Clone`, the result is known
    /// to denote the same row.
    pub fn duplicate(&self) -> (r: Row)
        ensures
            r@ == self@,
    {
        let mut values: Vec<(String, Value)> = Vec::new();
        let mut i: usize = 0;
        while i < self.values.len()
            invariant
                0 <= i <= self.values.len(),
                values@.len() == i,
                forall|j: int|
                    0 <= j < i ==> #[trigger] values@[j].0@ == self@[j].0 && values@[j].1@
                        == self@[j].1,
            decreases self.values.len() - i,
        {
            values.push((self.values[i].0.clone(), self.values[i].1.duplicate()));
            i += 1;
        }
        let r = Row { values };
        proof {
            assert(r@ =~= self@);
        }
        r
    }

    /// First value bound to `name`, if any.
    pub fn get(&self, name: &String) -> (r: Option<&Value>)
        ensures
            match r {
                Some(v) => row_lookup(self@, name@) == Some(v@),
                None => row_lookup(self@, name@) is None,
            },
    {
        proof {
            assert(self@.skip(0) =~= self@);
        }
        let mut i: usize = 0;
        while i < self.values.len()
            invariant
                0 <= i <= self.values.len(),
                row_lookup(self@, name@) == row_lookup(self@.skip(i as int), name@),
                forall|j: int| 0 <= j < i ==> self@[j].0 != name@,
            decreases self.values.len() - i,
        {
            proof {
                assert(self@.skip(i as int).drop_first() =~= self@.skip(i as int + 1));
                assert(self@.skip(i as int)[0] == self@[i as int]);
            }
            if self.values[i].0 == *name {
                proof {
                    assert(row_lookup(self@, name@) == Some(self@[i as int].1));
                }
                return Some(&self.values[i].1);
            }
            i += 1;
        }
        None
    }
}

/// The effect of [`Row::set`] on the model: replace the first binding of
/// `name`, or append one.
pub open spec fn row_set(row: RowModel, name: Seq<char>, value: ValModel) -> RowModel
    decreases row.len(),
{
    if row.len() == 0 {
        seq![(name, value)]
    } else if row[0].0 == name {
        seq![(name, value)] + row.drop_first()
    } else {
        seq![row[0]] + row_set(row.drop_first(), name, value)
    }
}

proof fn lemma_row_set_at(row: RowModel, name: Seq<char>, value: ValModel, i: int)
    requires
        0 <= i < row.len(),
        row[i].0 == name,
        forall|j: int| 0 <= j < i ==> row[j].0 != name,
    ensures
        row_set(row, name, value) == row.update(i, (name, value)),
    decreases row.len(),
{
    if i == 0 {
        assert(row_set(row, name, value) =~= row.update(0, (name, value)));
    } else {
        lemma_row_set_at(row.drop_first(), name, value, i - 1);
        assert(row_set(row, name, value) =~= row.update(i, (name, value)));
    }
}

proof fn lemma_row_set_absent(row: RowModel, name: Seq<char>, value: ValModel)
    requires
        forall|j: int| 0 <= j < row.len() ==> row[j].0 != name,
    ensures
        row_set(row, name, value) == row.push((name, value)),
    decreases row.len(),
{
    if row.len() == 0 {
        assert(row_set(row, name, value) =~= row.push((name, value)));
    } else {
        lemma_row_set_absent(row.drop_first(), name, value);
        assert(row_set(row, name, value) =~= row.push((name, value)));
    }
}

/// True when the two values are equal: same kind, same integer or same
/// characters.
pub fn values_equal(a: &Value, b: &Value) -> (r: bool)
    ensures
        r <==> a@ == b@,
{
    match (a, b) {
        (Value::Integer(x), Value::Integer(y)) => {
            let r = *x == *y;
            proof {
                assert(r <==> a@ == b@);
            }
            r
        },
        (Value::Text(s), Value::Text(t)) => {
            let r = *s == *t;
            proof {
                assert(r <==> a@ == b@);
            }
            r
        },
        _ => {
            proof {
                assert(a@ != b@);
            }
            false
        },
    }
}

/// True when the two rows hold the same bindings in the same order.
pub fn rows_equal(a: &Row, b: &Row) -> (r: bool)
    ensures
        r <==> a@ == b@,
{
    if a.values.len() != b.values.len() {
        proof {
            assert(a@.len() != b@.len());
        }
        return false;
    }
    let mut i: usize = 0;
    while i < a.values.len()
        invariant
            0 <= i <= a.values.len(),
            a@.len() == b@.len() == a.values.len(),
            forall|j: int| 0 <= j < i ==> a@[j] == b@[j],
        decreases a.values.len() - i,
    {
        if !(a.values[i].0 == b.values[i].0) {
            proof {
                assert(a@[i as int].0 != b@[i as int].0);
                assert(a@ != b@);
            }
            return false;
        }
        if !values_equal(&a.values[i].1, &b.values[i].1) {
            proof {
                assert(a@[i as int].1 != b@[i as int].1);
                assert(a@ != b@);
            }
            return false;
        }
        i += 1;
    }
    proof {
        assert(a@ =~= b@);
    }
    true
}

/// What kind of request a parsed statement carries.
pub enum StatementType {
    Insert,
    Select,
}

/// A single-column filter: column name, operator and literal to compare
/// against. Only the equality operator `=` selects anything.
pub struct WhereClause {
    pub column: String,
    pub operator: String,
    pub value: Value,
}

/// A parsed statement, as the surrounding program hands it to the store:
/// a kind, a table name (ignored by the single-table core), a column list,
/// the values of an insert, and an optional filter for a select.
pub struct Statement {
    pub statement_type: StatementType,
    pub table_name: String,
    pub columns: Vec<String>,
    pub values: Vec<Value>,
    pub where_clause: Option<WhereClause>,
}

/// True when `row` passes `clause`: no clause accepts every row; an equality
/// clause accepts exactly the rows that bind the named column to an equal
/// value; any other operator accepts nothing.
pub open spec fn spec_matches_where(row: RowModel, clause: Option<WhereClause>) -> bool {
    match clause {
        None => true,
        Some(c) => match row_lookup(row, c.column@) {
            None => false,
            Some(v) => c.operator@ == "="@ && v == c.value@,
        },
    }
}

/// Decides whether `row` passes the optional filter `clause`.
pub fn matches_where_clause(row: &Row, where_clause: &Option<WhereClause>) -> (r: bool)
    ensures
        r == spec_matches_where(row@, *where_clause),
{
    match where_clause {
        None => true,
        Some(clause) => {
            let is_eq_op: bool = clause.operator == "=".to_owned();
            match row.get(&clause.column) {
                None => {
                    proof {
                        assert(!spec_matches_where(row@, *where_clause));
                    }
                    false
                },
                Some(v) => {
                    let r = is_eq_op && values_equal(v, &clause.value);
                    proof {
                        assert(r == spec_matches_where(row@, *where_clause));
                    }
                    r
                },
            }
        },
    }
}

/// The row an insert statement describes: its column names paired with its
/// values, shorter list deciding the length.
pub open spec fn spec_statement_row(cols: Seq<Seq<char>>, vals: Seq<ValModel>) -> RowModel {
    Seq::new(
        if cols.len() <= vals.len() {
            cols.len()
        } else {
            vals.len()
        },
        |i: int| (cols[i], vals[i]),
    )
}

/// Builds the row an insert statement describes, pairing each column name
/// with the value at the same position.
pub fn statement_row(statement: &Statement) -> (r: Row)
    ensures
        r@ == spec_statement_row(
            statement.columns@.map_values(|s: String| s@),
            statement.values@.map_values(|v: Value| v@),
        ),
{
    let mut values: Vec<(String, Value)> = Vec::new();
    let n: usize = if statement.columns.len() <= statement.values.len() {
        statement.columns.len()
    } else {
        statement.values.len()
    };
    let mut i: usize = 0;
    while i < n
        invariant
            0 <= i <= n,
            n <= statement.columns.len(),
            n <= statement.values.len(),
            values@.len() == i,
            forall|j: int|
                0 <= j < i ==> #[trigger] values@[j].0@ == statement.columns@[j]@ && values@[j].1@
                    == statement.values@[j]@,
        decreases n - i,
    {
        values.push((statement.columns[i].clone(), statement.values[i].duplicate()));
        i += 1;
    }
    let r = Row { values };
    proof {
        assert(r@ =~= spec_statement_row(
            statement.columns@.map_values(|s: String| s@),
            statement.values@.map_values(|v: Value| v@),
        ));
    }
    r
}

} // verus!
