//! The table schema: an ordered list of typed columns, fixed at open time.
//!
//! Each column owns a fixed-width byte slot inside a row's serialization:
//! eight bytes for an integer, a four-byte length prefix plus the column's
//! declared capacity for text. The row size is the sum of the slot widths;
//! a schema is acceptable only when that sum is at least one byte and at
//! most one page, so that a whole number of rows fits on every page.

use vstd::prelude::*;

use crate::PAGE_SIZE;

verus! {

/// The type of one column: a 64-bit integer, or text of at most the given
/// number of bytes (its capacity).
#[derive(Clone, Copy, Debug, PartialEq, Eq, Structural)]
pub enum ColumnKind {
    Integer,
    Text(usize),
}

/// The model of a column: its name and kind.
pub struct ColumnModel {
    pub name: Seq<char>,
    pub kind: ColumnKind,
}

/// One schema entry: a column name and its kind.
#[derive(Clone, Debug)]
pub struct Column {
    pub name: String,
    pub kind: ColumnKind,
}

impl View for Column {
    type V = ColumnModel;

    open spec fn view(&self) -> ColumnModel {
        ColumnModel { name: self.name@, kind: self.kind }
    }
}

/// The model of a schema: its columns in order.
pub type SchemaModel = Seq<ColumnModel>;

/// Width in bytes of the slot a column of kind `kind` occupies in a
/// serialized row.
pub open spec fn spec_slot_width(kind: ColumnKind) -> int {
    match kind {
        ColumnKind::Integer => 8,
        ColumnKind::Text(cap) => 4 + cap,
    }
}

/// Serialized size in bytes of one row under `schema`: the sum of its
/// columns' slot widths.
pub open spec fn spec_row_size(schema: SchemaModel) -> int
    decreases schema.len(),
{
    if schema.len() == 0 {
        0
    } else {
        spec_slot_width(schema[0].kind) + spec_row_size(schema.drop_first())
    }
}

/// An acceptable schema: its row occupies at least one byte and at most one
/// page, so every page holds a whole, positive number of rows.
pub open spec fn spec_schema_ok(schema: SchemaModel) -> bool {
    1 <= spec_row_size(schema) <= PAGE_SIZE
}

/// A schema: an ordered list of typed columns. [`Schema::new`] validates
/// that the row size lies between one byte and one page; the storage
/// operations state that validity ([`spec_schema_ok`]) as a precondition.
#[derive(Clone, Debug)]
pub struct Schema {
    pub columns: Vec<Column>,
}

impl View for Schema {
    type V = SchemaModel;

    open spec fn view(&self) -> SchemaModel {
        self.columns@.map_values(|c: Column| c@)
    }
}

/// Appending a column adds its slot width to the row size.
pub proof fn lemma_row_size_append(schema: SchemaModel, c: ColumnModel)
    ensures
        spec_row_size(schema.push(c)) == spec_row_size(schema) + spec_slot_width(c.kind),
    decreases schema.len(),
{
    if schema.len() == 0 {
        assert(schema.push(c).drop_first() =~= schema);
    } else {
        lemma_row_size_append(schema.drop_first(), c);
        assert(schema.push(c).drop_first() =~= schema.drop_first().push(c));
    }
}

/// Slot widths are positive, so the row size grows with every column.
proof fn lemma_row_size_nonneg(schema: SchemaModel)
    ensures
        spec_row_size(schema) >= 0,
        schema.len() > 0 ==> spec_row_size(schema) >= 1,
    decreases schema.len(),
{
    if schema.len() > 0 {
        lemma_row_size_nonneg(schema.drop_first());
    }
}

impl Schema {
    /// Validates and wraps a column list. Returns the schema exactly when
    /// the row size lies between one byte and one page ([`spec_schema_ok`]);
    /// an empty schema or one whose row could not fit on a page is refused.
    pub fn new(columns: Vec<Column>) -> (r: Option<Schema>)
        ensures
            match r {
                Some(s) => s@ == columns@.map_values(|c: Column| c@) && spec_schema_ok(s@),
                None => !spec_schema_ok(columns@.map_values(|c: Column| c@)),
            },
    {
        let ghost model = columns@.map_values(|c: Column| c@);
        let mut size: usize = 0;
        let mut i: usize = 0;
        while i < columns.len()
            invariant
                0 <= i <= columns.len(),
                model == columns@.map_values(|c: Column| c@),
                model.len() == columns.len(),
                size == spec_row_size(model.take(i as int)),
                size <= PAGE_SIZE,
            decreases columns.len() - i,
        {
            let width: usize = match columns[i].kind {
                ColumnKind::Integer => 8,
                ColumnKind::Text(cap) => {
                    if cap > PAGE_SIZE {
                        proof {
                            lemma_row_size_split(model, i as int);
                            assert(model.skip(i as int).drop_first() =~= model.skip(i as int + 1));
                            assert(spec_row_size(model.skip(i as int)) == spec_slot_width(
                                model[i as int].kind,
                            ) + spec_row_size(model.skip(i as int + 1)));
                            lemma_row_size_nonneg(model.skip(i as int + 1));
                        }
                        return None;
                    }
                    4 + cap
                },
            };
            proof {
                assert(model.take(i as int).push(model[i as int]) =~= model.take(i as int + 1));
                lemma_row_size_append(model.take(i as int), model[i as int]);
            }
            if width > PAGE_SIZE - size {
                proof {
                    lemma_row_size_split(model, i as int + 1);
                    lemma_row_size_nonneg(model.skip(i as int + 1));
                }
                return None;
            }
            size = size + width;
            i += 1;
        }
        proof {
            assert(model.take(columns.len() as int) =~= model);
        }
        if size == 0 {
            return None;
        }
        Some(Schema { columns })
    }

    /// Number of columns.
    pub fn len(&self) -> (r: usize)
        ensures
            r == self@.len(),
    {
        self.columns.len()
    }

    /// Serialized size in bytes of one row under this schema.
    pub fn row_size(&self) -> (r: usize)
        requires
            spec_schema_ok(self@),
        ensures
            r == spec_row_size(self@),
            1 <= r <= PAGE_SIZE,
    {
        let ghost model = self@;
        let mut size: usize = 0;
        let mut i: usize = 0;
        proof {
            lemma_row_size_split(model, 0);
            lemma_row_size_nonneg(model);
        }
        while i < self.columns.len()
            invariant
                0 <= i <= self.columns.len(),
                model == self@,
                model.len() == self.columns.len(),
                spec_schema_ok(model),
                size == spec_row_size(model.take(i as int)),
                spec_row_size(model.take(i as int)) + spec_row_size(model.skip(i as int))
                    == spec_row_size(model),
                size + spec_row_size(model.skip(i as int)) <= PAGE_SIZE,
            decreases self.columns.len() - i,
        {
            proof {
                assert(model.take(i as int).push(model[i as int]) =~= model.take(i as int + 1));
                lemma_row_size_append(model.take(i as int), model[i as int]);
                lemma_row_size_split(model, i as int + 1);
                lemma_row_size_nonneg(model.skip(i as int + 1));
                assert(model.skip(i as int).drop_first() =~= model.skip(i as int + 1));
                assert(spec_row_size(model.skip(i as int)) == spec_slot_width(model[i as int].kind)
                    + spec_row_size(model.skip(i as int + 1)));
            }
            let width: usize = match self.columns[i].kind {
                ColumnKind::Integer => 8,
                ColumnKind::Text(cap) => 4 + cap,
            };
            size = size + width;
            i += 1;
        }
        proof {
            assert(model.take(self.columns.len() as int) =~= model);
        }
        size
    }
}

/// The row size splits at any column boundary.
pub proof fn lemma_row_size_split(schema: SchemaModel, i: int)
    requires
        0 <= i <= schema.len(),
    ensures
        spec_row_size(schema) == spec_row_size(schema.take(i)) + spec_row_size(schema.skip(i)),
    decreases i,
{
    if i == 0 {
        assert(schema.take(0) =~= Seq::<ColumnModel>::empty());
        assert(schema.skip(0) =~= schema);
    } else {
        lemma_row_size_split(schema, i - 1);
        assert(schema.take(i - 1).push(schema[i - 1]) =~= schema.take(i));
        lemma_row_size_append(schema.take(i - 1), schema[i - 1]);
        assert(schema.skip(i - 1).drop_first() =~= schema.skip(i));
        assert(spec_row_size(schema.skip(i - 1)) == spec_slot_width(schema[i - 1].kind)
            + spec_row_size(schema.skip(i)));
    }
}

} // verus!
