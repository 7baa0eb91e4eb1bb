//! The row codec: a fixed-layout binary serialization of one row.
//!
//! A serialized row is the concatenation of one fixed-width slot per schema
//! column. An integer column's slot holds the value as eight little-endian
//! two's-complement bytes. A text column of capacity `cap` owns a slot of
//! `4 + cap` bytes: a four-byte little-endian length prefix, the UTF-8 bytes
//! of the text, and zero padding up to the capacity. A column the row does
//! not bind (or binds to a value of the wrong kind) encodes as the empty
//! value of the column's kind: integer zero, or the empty string.
//!
//! Decoding rejects a slot whose length prefix exceeds the column capacity
//! (it would read past the slot) and text that is not well-formed UTF-8;
//! both surface as [`StoreError::CorruptRow`].

use vstd::prelude::*;
use vstd::bytes::*;
use vstd::utf8::*;
use vstd::string::StrSliceExecFns;
use vstd::slice::slice_subrange;

use crate::errors::StoreError;
use crate::schema::{spec_row_size, spec_schema_ok, spec_slot_width, ColumnKind, Schema,
    SchemaModel};
use crate::values::{row_lookup, Row, RowModel, ValModel, Value};
use crate::PAGE_SIZE;

verus! {

/// `n` zero bytes (none when `n` is negative).
pub open spec fn zero_bytes(n: int) -> Seq<u8> {
    Seq::new(
        if n >= 0 {
            n as nat
        } else {
            0
        },
        |i: int| 0u8,
    )
}

/// The slot bytes for the (optional) value `v` in a column of kind `kind`.
/// A missing value, or one of the wrong kind, encodes as the kind's empty
/// value.
pub open spec fn spec_encode_value(v: Option<ValModel>, kind: ColumnKind) -> Seq<u8> {
    match kind {
        ColumnKind::Integer => {
            let x: i64 = match v {
                Some(ValModel::Int(i)) => i,
                _ => 0,
            };
            spec_u64_to_le_bytes(x as u64)
        },
        ColumnKind::Text(cap) => {
            let s: Seq<char> = match v {
                Some(ValModel::Text(t)) => t,
                _ => Seq::empty(),
            };
            let data = encode_utf8(s);
            spec_u32_to_le_bytes(data.len() as u32) + data + zero_bytes(cap - data.len())
        },
    }
}

/// True when `v` fits the slot of a column of kind `kind`: text must encode
/// to at most the column's capacity in bytes; everything else always fits.
pub open spec fn spec_value_fits(v: Option<ValModel>, kind: ColumnKind) -> bool {
    match kind {
        ColumnKind::Integer => true,
        ColumnKind::Text(cap) => match v {
            Some(ValModel::Text(t)) => encode_utf8(t).len() <= cap,
            _ => true,
        },
    }
}

/// True when every column's looked-up value fits its slot.
pub open spec fn spec_row_fits(row: RowModel, schema: SchemaModel) -> bool {
    forall|i: int|
        0 <= i < schema.len() ==> spec_value_fits(
            row_lookup(row, (#[trigger] schema[i]).name),
            schema[i].kind,
        )
}

/// The serialized bytes of `row` under `schema`: one slot per column, in
/// schema order, each encoding the value the row binds to that column.
pub open spec fn spec_encode_row(row: RowModel, schema: SchemaModel) -> Seq<u8>
    decreases schema.len(),
{
    if schema.len() == 0 {
        Seq::empty()
    } else {
        spec_encode_value(row_lookup(row, schema[0].name), schema[0].kind) + spec_encode_row(
            row,
            schema.drop_first(),
        )
    }
}

/// The value a slot's bytes denote, or `None` when the slot is corrupt:
/// a text length prefix beyond the capacity, or ill-formed UTF-8.
/// `bytes` is exactly the slot.
pub open spec fn spec_decode_value(bytes: Seq<u8>, kind: ColumnKind) -> Option<ValModel> {
    match kind {
        ColumnKind::Integer => Some(ValModel::Int(spec_u64_from_le_bytes(bytes) as i64)),
        ColumnKind::Text(cap) => {
            let n = spec_u32_from_le_bytes(bytes.subrange(0, 4)) as int;
            if n > cap {
                None
            } else {
                let data = bytes.subrange(4, 4 + n);
                if valid_utf8(data) {
                    Some(ValModel::Text(decode_utf8(data)))
                } else {
                    None
                }
            }
        },
    }
}

/// The row a buffer of exactly [`spec_row_size`] bytes denotes under
/// `schema`, or `None` when any slot is corrupt. The decoded row binds every
/// schema column, in schema order.
pub open spec fn spec_decode_row(bytes: Seq<u8>, schema: SchemaModel) -> Option<RowModel>
    decreases schema.len(),
{
    if schema.len() == 0 {
        Some(Seq::empty())
    } else {
        let w = spec_slot_width(schema[0].kind);
        match spec_decode_value(bytes.subrange(0, w), schema[0].kind) {
            None => None,
            Some(v) => match spec_decode_row(
                bytes.subrange(w, bytes.len() as int),
                schema.drop_first(),
            ) {
                None => None,
                Some(rest) => Some(seq![(schema[0].name, v)] + rest),
            },
        }
    }
}

/// The value actually stored for `v` in a column of kind `kind`: `v` itself
/// when present and of the right kind, else the kind's empty value.
pub open spec fn spec_normal_value(v: Option<ValModel>, kind: ColumnKind) -> ValModel {
    match kind {
        ColumnKind::Integer => ValModel::Int(
            match v {
                Some(ValModel::Int(i)) => i,
                _ => 0,
            },
        ),
        ColumnKind::Text(cap) => ValModel::Text(
            match v {
                Some(ValModel::Text(t)) => t,
                _ => Seq::empty(),
            },
        ),
    }
}

/// The row that storing `row` under `schema` preserves: every schema column
/// bound, in schema order, to the stored form of the row's value for it.
pub open spec fn spec_project_row(row: RowModel, schema: SchemaModel) -> RowModel {
    Seq::new(
        schema.len(),
        |i: int| (schema[i].name, spec_normal_value(row_lookup(row, schema[i].name), schema[i].kind)),
    )
}

/// No two columns share a name.
pub open spec fn spec_distinct_names(schema: SchemaModel) -> bool {
    forall|i: int, j: int| 0 <= i < j < schema.len() ==> schema[i].name != schema[j].name
}

/// `row` conforms to `schema`: it binds exactly the schema's columns, in
/// schema order, each to a value of the column's kind that fits its slot.
pub open spec fn spec_row_conforms(row: RowModel, schema: SchemaModel) -> bool {
    &&& row.len() == schema.len()
    &&& forall|i: int| 0 <= i < schema.len() ==> (#[trigger] row[i]).0 == schema[i].name
    &&& forall|i: int|
        0 <= i < schema.len() ==> match (((#[trigger] row[i]).1), schema[i].kind) {
            (ValModel::Int(_), ColumnKind::Integer) => true,
            (ValModel::Text(t), ColumnKind::Text(cap)) => encode_utf8(t).len() <= cap,
            _ => false,
        }
}

/// Every slot of an acceptable schema is at most one page wide.
pub proof fn lemma_widths_bounded(schema: SchemaModel, i: int)
    requires
        spec_schema_ok(schema),
        0 <= i < schema.len(),
    ensures
        spec_slot_width(schema[i].kind) <= PAGE_SIZE,
{
    crate::schema::lemma_row_size_split(schema, i);
    lemma_row_size_nonneg_local(schema.take(i));
    lemma_row_size_nonneg_local(schema.skip(i).drop_first());
    assert(spec_row_size(schema.skip(i)) == spec_slot_width(schema[i].kind) + spec_row_size(
        schema.skip(i).drop_first(),
    )) by {
        assert(schema.skip(i)[0] == schema[i]);
    }
}

proof fn lemma_row_size_nonneg_local(schema: SchemaModel)
    ensures
        spec_row_size(schema) >= 0,
    decreases schema.len(),
{
    if schema.len() > 0 {
        lemma_row_size_nonneg_local(schema.drop_first());
    }
}

/// Round trip for one slot: the encoding of a fitting value is exactly one
/// slot wide and decodes to the value's stored form.
pub proof fn lemma_value_round_trip(v: Option<ValModel>, kind: ColumnKind)
    requires
        spec_value_fits(v, kind),
        spec_slot_width(kind) <= PAGE_SIZE,
    ensures
        spec_encode_value(v, kind).len() == spec_slot_width(kind),
        spec_decode_value(spec_encode_value(v, kind), kind) == Some(spec_normal_value(v, kind)),
{
    match kind {
        ColumnKind::Integer => {
            let x: i64 = match v {
                Some(ValModel::Int(i)) => i,
                _ => 0,
            };
            lemma_auto_spec_u64_to_from_le_bytes();
            assert(((x as u64) as i64) == x) by (bit_vector);
        },
        ColumnKind::Text(cap) => {
            let s: Seq<char> = match v {
                Some(ValModel::Text(t)) => t,
                _ => Seq::empty(),
            };
            let data = encode_utf8(s);
            let n = data.len() as int;
            assert(n <= cap) by {
                if v is Some && v->0 is Text {
                } else {
                    assert(s.len() == 0);
                    assert(data.len() == 0);
                }
            }
            lemma_auto_spec_u32_to_from_le_bytes();
            let prefix = spec_u32_to_le_bytes(n as u32);
            let enc = prefix + data + zero_bytes(cap - n);
            assert(enc.len() == 4 + cap);
            assert(enc.subrange(0, 4) =~= prefix);
            assert(spec_u32_from_le_bytes(prefix) == n as u32);
            assert((n as u32) as int == n);
            assert(enc.subrange(4, 4 + n) =~= data);
            encode_utf8_valid_utf8(s);
            encode_utf8_decode_utf8(s);
        },
    }
}

/// Round trip for a whole row: the encoding is exactly [`spec_row_size`]
/// bytes and decodes to the row's stored projection onto the schema.
pub proof fn lemma_encode_then_decode(row: RowModel, schema: SchemaModel)
    requires
        spec_row_fits(row, schema),
        forall|i: int|
            0 <= i < schema.len() ==> spec_slot_width((#[trigger] schema[i]).kind) <= PAGE_SIZE,
    ensures
        spec_encode_row(row, schema).len() == spec_row_size(schema),
        spec_decode_row(spec_encode_row(row, schema), schema) == Some(
            spec_project_row(row, schema),
        ),
    decreases schema.len(),
{
    if schema.len() == 0 {
        assert(spec_project_row(row, schema) =~= Seq::<(Seq<char>, ValModel)>::empty());
    } else {
        let tail = schema.drop_first();
        let v = row_lookup(row, schema[0].name);
        let kind = schema[0].kind;
        let w = spec_slot_width(kind);
        let head_enc = spec_encode_value(v, kind);
        let rest_enc = spec_encode_row(row, tail);
        assert(spec_value_fits(v, kind));
        lemma_value_round_trip(v, kind);
        assert(spec_row_fits(row, tail)) by {
            assert(forall|i: int|
                0 <= i < tail.len() ==> #[trigger] tail[i] == schema[i + 1]);
        }
        assert(forall|i: int|
            0 <= i < tail.len() ==> spec_slot_width((#[trigger] tail[i]).kind) <= PAGE_SIZE) by {
            assert(forall|i: int|
                0 <= i < tail.len() ==> #[trigger] tail[i] == schema[i + 1]);
        }
        lemma_encode_then_decode(row, tail);
        let enc = spec_encode_row(row, schema);
        assert(enc == head_enc + rest_enc);
        assert(enc.len() == w + spec_row_size(tail));
        assert(enc.subrange(0, w) =~= head_enc);
        assert(enc.subrange(w, enc.len() as int) =~= rest_enc);
        assert(spec_decode_value(enc.subrange(0, w), kind) == Some(spec_normal_value(v, kind)));
        assert(spec_decode_row(enc, schema) == Some(
            seq![(schema[0].name, spec_normal_value(v, kind))] + spec_project_row(row, tail),
        ));
        assert(spec_project_row(row, schema) =~= seq![
            (schema[0].name, spec_normal_value(v, kind)),
        ] + spec_project_row(row, tail));
    }
}

proof fn lemma_conforming_lookup(row: RowModel, schema: SchemaModel, i: int)
    requires
        row.len() == schema.len(),
        forall|k: int| 0 <= k < schema.len() ==> (#[trigger] row[k]).0 == schema[k].name,
        spec_distinct_names(schema),
        0 <= i < schema.len(),
    ensures
        row_lookup(row, schema[i].name) == Some(row[i].1),
    decreases i,
{
    if i == 0 {
    } else {
        assert(row[0].0 == schema[0].name);
        assert(schema[0].name != schema[i].name);
        let row2 = row.drop_first();
        let schema2 = schema.drop_first();
        assert(forall|k: int|
            0 <= k < schema2.len() ==> (#[trigger] row2[k]).0 == schema2[k].name) by {
            assert(forall|k: int| 0 <= k < row2.len() ==> #[trigger] row2[k] == row[k + 1]);
            assert(forall|k: int|
                0 <= k < schema2.len() ==> #[trigger] schema2[k] == schema[k + 1]);
        }
        assert(spec_distinct_names(schema2)) by {
            assert(forall|k: int|
                0 <= k < schema2.len() ==> #[trigger] schema2[k] == schema[k + 1]);
        }
        lemma_conforming_lookup(row2, schema2, i - 1);
        assert(schema2[i - 1] == schema[i]);
        assert(row2[i - 1] == row[i]);
    }
}

/// A conforming row fits, and storing then reading it gives it back
/// unchanged: its stored projection is itself.
pub proof fn lemma_conforming_row_identity(row: RowModel, schema: SchemaModel)
    requires
        spec_row_conforms(row, schema),
        spec_distinct_names(schema),
    ensures
        spec_row_fits(row, schema),
        spec_project_row(row, schema) == row,
{
    assert forall|i: int| 0 <= i < schema.len() implies spec_value_fits(
        row_lookup(row, (#[trigger] schema[i]).name),
        schema[i].kind,
    ) by {
        lemma_conforming_lookup(row, schema, i);
    }
    assert forall|i: int| 0 <= i < row.len() implies #[trigger] spec_project_row(row, schema)[i]
        == row[i] by {
        lemma_conforming_lookup(row, schema, i);
    }
    assert(spec_project_row(row, schema) =~= row);
}

proof fn lemma_encode_row_append(row: RowModel, schema: SchemaModel, c: crate::schema::ColumnModel)
    ensures
        spec_encode_row(row, schema.push(c)) == spec_encode_row(row, schema) + spec_encode_value(
            row_lookup(row, c.name),
            c.kind,
        ),
    decreases schema.len(),
{
    if schema.len() == 0 {
        assert(schema.push(c)[0] == c);
        assert(schema.push(c).drop_first() =~= schema);
        assert(spec_encode_row(row, schema) == Seq::<u8>::empty());
        assert(spec_encode_row(row, schema.push(c)) == spec_encode_value(
            row_lookup(row, c.name),
            c.kind,
        ) + spec_encode_row(row, schema));
        assert(spec_encode_row(row, schema.push(c)) =~= spec_encode_row(row, schema)
            + spec_encode_value(row_lookup(row, c.name), c.kind));
    } else {
        assert(schema.push(c)[0] == schema[0]);
        assert(schema.push(c).drop_first() =~= schema.drop_first().push(c));
        lemma_encode_row_append(row, schema.drop_first(), c);
        assert(spec_encode_row(row, schema.push(c)) =~= spec_encode_row(row, schema)
            + spec_encode_value(row_lookup(row, c.name), c.kind));
    }
}

/// The integer the row supplies for a column, with zero for a missing or
/// mistyped value.
fn integer_for_column(row: &Row, name: &String) -> (x: i64)
    ensures
        x == (match row_lookup(row@, name@) {
            Some(ValModel::Int(i)) => i,
            _ => 0i64,
        }),
{
    match row.get(name) {
        Some(v) => match v {
            Value::Integer(n) => {
                let x = *n;
                proof {
                    assert(row_lookup(row@, name@) == Some(ValModel::Int(x)));
                }
                x
            },
            _ => {
                proof {
                    assert(!(row_lookup(row@, name@) matches Some(ValModel::Int(_))));
                }
                0
            },
        },
        None => 0,
    }
}

/// The text the row supplies for a column, with `None` for a missing or
/// mistyped value.
fn text_for_column<'a>(row: &'a Row, name: &String) -> (r: Option<&'a String>)
    ensures
        match r {
            Some(s) => row_lookup(row@, name@) == Some(ValModel::Text(s@)),
            None => !(row_lookup(row@, name@) matches Some(ValModel::Text(_))),
        },
{
    match row.get(name) {
        Some(v) => match v {
            Value::Text(s) => {
                proof {
                    assert(row_lookup(row@, name@) == Some(ValModel::Text(s@)));
                }
                Some(s)
            },
            _ => {
                proof {
                    assert(!(row_lookup(row@, name@) matches Some(ValModel::Text(_))));
                }
                None
            },
        },
        None => None,
    }
}

/// Serializes `row` under `schema` into exactly [`spec_row_size`] bytes.
/// Fails with [`StoreError::ValueTooLarge`], touching nothing, exactly when
/// some text value is longer in bytes than its column's capacity.
pub fn encode_row(row: &Row, schema: &Schema) -> (r: Result<Vec<u8>, StoreError>)
    requires
        spec_schema_ok(schema@),
    ensures
        match r {
            Ok(bytes) => spec_row_fits(row@, schema@) && bytes@ == spec_encode_row(row@, schema@)
                && bytes@.len() == spec_row_size(schema@),
            Err(e) => e == StoreError::ValueTooLarge && !spec_row_fits(row@, schema@),
        },
{
    let ghost model = schema@;
    let mut out: Vec<u8> = Vec::new();
    let mut i: usize = 0;
    proof {
        assert(model.take(0) =~= Seq::<crate::schema::ColumnModel>::empty());
    }
    while i < schema.columns.len()
        invariant
            0 <= i <= schema.columns.len(),
            model == schema@,
            model.len() == schema.columns.len(),
            spec_schema_ok(model),
            out@ == spec_encode_row(row@, model.take(i as int)),
            forall|j: int|
                0 <= j < i ==> spec_value_fits(
                    row_lookup(row@, (#[trigger] model[j]).name),
                    model[j].kind,
                ),
        decreases schema.columns.len() - i,
    {
        let column = &schema.columns[i];
        proof {
            lemma_widths_bounded(model, i as int);
            assert(model[i as int] == column@);
        }
        match column.kind {
            ColumnKind::Integer => {
                let x = integer_for_column(row, &column.name);
                let mut piece = u64_to_le_bytes(x as u64);
                out.append(&mut piece);
            },
            ColumnKind::Text(cap) => {
                let ghost looked = row_lookup(row@, column.name@);
                match text_for_column(row, &column.name) {
                    Some(s) => {
                        let data = s.as_str().as_bytes();
                        if data.len() > cap {
                            proof {
                                assert(!spec_value_fits(looked, model[i as int].kind));
                                assert(!spec_row_fits(row@, model));
                            }
                            return Err(StoreError::ValueTooLarge);
                        }
                        let n = data.len();
                        let mut prefix = u32_to_le_bytes(n as u32);
                        out.append(&mut prefix);
                        let mut body = s.as_str().as_bytes_vec();
                        out.append(&mut body);
                        let ghost before_pad = out@;
                        let mut k: usize = 0;
                        while k < cap - n
                            invariant
                                0 <= k <= cap - n,
                                n <= cap,
                                out@ == before_pad + zero_bytes(k as int),
                            decreases cap - n - k,
                        {
                            out.push(0u8);
                            proof {
                                assert(zero_bytes(k as int).push(0u8) =~= zero_bytes(k + 1 as int));
                                assert((before_pad + zero_bytes(k as int)).push(0u8) =~= before_pad
                                    + zero_bytes(k + 1 as int));
                            }
                            k += 1;
                        }
                        proof {
                            assert(out@ =~= spec_encode_row(row@, model.take(i as int))
                                + spec_encode_value(looked, model[i as int].kind));
                        }
                    },
                    None => {
                        let mut prefix = u32_to_le_bytes(0u32);
                        out.append(&mut prefix);
                        let ghost before_pad = out@;
                        let mut k: usize = 0;
                        while k < cap
                            invariant
                                0 <= k <= cap,
                                out@ == before_pad + zero_bytes(k as int),
                            decreases cap - k,
                        {
                            out.push(0u8);
                            proof {
                                assert(zero_bytes(k as int).push(0u8) =~= zero_bytes(k + 1 as int));
                                assert((before_pad + zero_bytes(k as int)).push(0u8) =~= before_pad
                                    + zero_bytes(k + 1 as int));
                            }
                            k += 1;
                        }
                        proof {
                            assert(encode_utf8(Seq::<char>::empty()).len() == 0);
                            assert(encode_utf8(Seq::<char>::empty()) =~= Seq::<u8>::empty());
                            assert(out@ =~= spec_encode_row(row@, model.take(i as int))
                                + spec_encode_value(looked, model[i as int].kind));
                        }
                    },
                }
            },
        }
        proof {
            assert(model.take(i as int).push(model[i as int]) =~= model.take(i + 1 as int));
            lemma_encode_row_append(row@, model.take(i as int), model[i as int]);
            assert(out@ == spec_encode_row(row@, model.take(i + 1 as int)));
        }
        i += 1;
    }
    proof {
        assert(model.take(schema.columns.len() as int) =~= model);
        assert(forall|i: int|
            0 <= i < model.len() ==> spec_slot_width((#[trigger] model[i]).kind) <= PAGE_SIZE) by {
            assert forall|i: int| 0 <= i < model.len() implies spec_slot_width(
                (#[trigger] model[i]).kind,
            ) <= PAGE_SIZE by {
                lemma_widths_bounded(model, i);
            }
        }
        lemma_encode_then_decode(row@, model);
    }
    Ok(out)
}

/// Relies on `String::from_utf8`: it returns `Ok` exactly when the bytes are
/// well-formed UTF-8, and the returned string's UTF-8 bytes are the input
/// bytes unchanged.
#[verifier::external_body]
fn bytes_to_string(bytes: Vec<u8>) -> (r: Option<String>)
    ensures
        match r {
            Some(s) => bytes@ == encode_utf8(s@),
            None => !valid_utf8(bytes@),
        },
{
    match String::from_utf8(bytes) {
        Ok(s) => Some(s),
        Err(_) => None,
    }
}

/// Reads the value stored in one slot. `slot` is exactly the column's slot.
/// Fails with [`StoreError::CorruptRow`] exactly when the slot is corrupt:
/// a text length prefix beyond the capacity, or ill-formed UTF-8.
fn decode_value(slot: &[u8], kind: ColumnKind) -> (r: Result<Value, StoreError>)
    requires
        slot@.len() == spec_slot_width(kind),
        spec_slot_width(kind) <= PAGE_SIZE,
    ensures
        match r {
            Ok(v) => spec_decode_value(slot@, kind) == Some(v@),
            Err(e) => e == StoreError::CorruptRow && spec_decode_value(slot@, kind) is None,
        },
{
    match kind {
        ColumnKind::Integer => {
            let x = u64_from_le_bytes(slot);
            Ok(Value::Integer(x as i64))
        },
        ColumnKind::Text(cap) => {
            let prefix = slice_subrange(slot, 0, 4);
            let n32 = u32_from_le_bytes(prefix);
            let ghost n_spec = spec_u32_from_le_bytes(slot@.subrange(0, 4)) as int;
            let n = n32 as usize;
            proof {
                assert(n == n_spec);
            }
            if n > cap {
                return Err(StoreError::CorruptRow);
            }
            let data = slice_subrange(slot, 4, 4 + n);
            let bytes = vstd::slice::slice_to_vec(data);
            match bytes_to_string(bytes) {
                Some(s) => {
                    proof {
                        encode_utf8_valid_utf8(s@);
                        encode_utf8_decode_utf8(s@);
                    }
                    Ok(Value::Text(s))
                },
                None => Err(StoreError::CorruptRow),
            }
        },
    }
}

/// Reads a whole row from exactly [`spec_row_size`] bytes, binding every
/// schema column in schema order. Fails with [`StoreError::CorruptRow`]
/// exactly when some slot is corrupt.
pub fn decode_row(bytes: &[u8], schema: &Schema) -> (r: Result<Row, StoreError>)
    requires
        spec_schema_ok(schema@),
        bytes@.len() == spec_row_size(schema@),
    ensures
        match r {
            Ok(row) => spec_decode_row(bytes@, schema@) == Some(row@),
            Err(e) => e == StoreError::CorruptRow && spec_decode_row(bytes@, schema@) is None,
        },
{
    let ghost model = schema@;
    let mut values: Vec<(String, Value)> = Vec::new();
    let mut off: usize = 0;
    let mut i: usize = 0;
    proof {
        assert(model.take(0) =~= Seq::<crate::schema::ColumnModel>::empty());
        assert(model.skip(0) =~= model);
        assert(bytes@.skip(0) =~= bytes@);
        crate::schema::lemma_row_size_split(model, 0);
    }
    while i < schema.columns.len()
        invariant
            0 <= i <= schema.columns.len(),
            model == schema@,
            model.len() == schema.columns.len(),
            spec_schema_ok(model),
            bytes@.len() == spec_row_size(model),
            off == spec_row_size(model.take(i as int)),
            off <= bytes@.len(),
            values@.len() == i,
            match spec_decode_row(bytes@.skip(off as int), model.skip(i as int)) {
                Some(rest) => spec_decode_row(bytes@, model) == Some(
                    values@.map_values(|p: (String, Value)| (p.0@, p.1@)) + rest,
                ),
                None => spec_decode_row(bytes@, model) is None,
            },
        decreases schema.columns.len() - i,
    {
        let column = &schema.columns[i];
        let ghost tail_bytes = bytes@.skip(off as int);
        let ghost tail_schema = model.skip(i as int);
        proof {
            lemma_widths_bounded(model, i as int);
            assert(model[i as int] == column@);
            assert(tail_schema[0] == model[i as int]);
            crate::schema::lemma_row_size_split(model, i as int);
            assert(tail_schema.drop_first() =~= model.skip(i + 1 as int));
            assert(spec_row_size(tail_schema) == spec_slot_width(model[i as int].kind)
                + spec_row_size(model.skip(i + 1 as int)));
            lemma_row_size_nonneg_local(model.skip(i + 1 as int));
            assert(model.take(i as int).push(model[i as int]) =~= model.take(i + 1 as int));
            crate::schema::lemma_row_size_append(model.take(i as int), model[i as int]);
            crate::schema::lemma_row_size_split(model, i + 1 as int);
        }
        let width: usize = match column.kind {
            ColumnKind::Integer => 8,
            ColumnKind::Text(cap) => 4 + cap,
        };
        let slot = slice_subrange(bytes, off, off + width);
        proof {
            assert(slot@ =~= tail_bytes.subrange(0, width as int));
        }
        match decode_value(slot, column.kind) {
            Ok(v) => {
                values.push((column.name.clone(), v));
            },
            Err(e) => {
                proof {
                    assert(spec_decode_row(tail_bytes, tail_schema) is None);
                }
                return Err(e);
            },
        }
        proof {
            assert(bytes@.skip(off + width as int) =~= tail_bytes.subrange(
                width as int,
                tail_bytes.len() as int,
            ));
            let prev = values@.subrange(0, values@.len() - 1);
            assert(prev =~= old_values_view(values@));
            match spec_decode_row(bytes@.skip(off + width as int), model.skip(i + 1 as int)) {
                Some(rest2) => {
                    assert(spec_decode_row(tail_bytes, tail_schema) == Some(
                        seq![
                            (
                                model[i as int].name,
                                spec_decode_value(slot@, model[i as int].kind)->0,
                            ),
                        ] + rest2,
                    ));
                    assert(values@.map_values(|p: (String, Value)| (p.0@, p.1@)) + rest2 =~= prev
                        .map_values(|p: (String, Value)| (p.0@, p.1@)) + (seq![
                        (model[i as int].name, spec_decode_value(slot@, model[i as int].kind)->0),
                    ] + rest2));
                },
                None => {
                    assert(spec_decode_row(tail_bytes, tail_schema) is None
                        || spec_decode_row(bytes@, model) is None);
                },
            }
        }
        off = off + width;
        i += 1;
    }
    proof {
        assert(model.skip(i as int) =~= Seq::<crate::schema::ColumnModel>::empty());
        assert(spec_decode_row(bytes@.skip(off as int), model.skip(i as int)) == Some(
            Seq::<(Seq<char>, ValModel)>::empty(),
        ));
        assert(values@.map_values(|p: (String, Value)| (p.0@, p.1@)) + Seq::<
            (Seq<char>, ValModel),
        >::empty() =~= values@.map_values(|p: (String, Value)| (p.0@, p.1@)));
    }
    let row = Row { values };
    Ok(row)
}

spec fn old_values_view(v: Seq<(String, Value)>) -> Seq<(String, Value)> {
    v.subrange(0, v.len() - 1)
}

/// Round trip: for every row conforming to a schema of pairwise-distinct,
/// acceptable columns, decoding the row's encoding yields the row itself.
pub proof fn lemma_row_round_trip(row: RowModel, schema: SchemaModel)
    requires
        spec_row_conforms(row, schema),
        spec_distinct_names(schema),
        spec_schema_ok(schema),
    ensures
        spec_decode_row(spec_encode_row(row, schema), schema) == Some(row),
{
    lemma_conforming_row_identity(row, schema);
    assert(forall|i: int|
        0 <= i < schema.len() ==> spec_slot_width((#[trigger] schema[i]).kind) <= PAGE_SIZE) by {
        assert forall|i: int| 0 <= i < schema.len() implies spec_slot_width(
            (#[trigger] schema[i]).kind,
        ) <= PAGE_SIZE by {
            lemma_widths_bounded(schema, i);
        }
    }
    lemma_encode_then_decode(row, schema);
}

} // verus!
