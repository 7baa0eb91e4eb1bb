//! A minimal persistent record store: a single fixed-schema table backed by a
//! paged file, accessed through a sequential cursor and a binary row codec.
//!
//! The crate itself performs no file input or output. The pager and the table
//! describe the reads and writes they need as plain requests
//! ([`ReadRequest`], [`WriteRequest`]); the surrounding program performs them
//! against the real file and hands the bytes back. Everything else — the row
//! byte layout, the page bookkeeping, the row-to-page arithmetic and the
//! cursor — is verified here.

use vstd::prelude::*;

mod codec;
mod cursor;
mod errors;
mod pager;
mod schema;
mod table;
mod values;

pub use codec::{
    decode_row, encode_row, lemma_conforming_row_identity, lemma_encode_then_decode,
    lemma_row_round_trip,
    lemma_value_round_trip, lemma_widths_bounded, spec_decode_row, spec_decode_value,
    spec_distinct_names, spec_encode_row, spec_encode_value, spec_normal_value, spec_project_row,
    spec_row_conforms, spec_row_fits, spec_value_fits, zero_bytes,
};
pub use cursor::{spec_filter_rows, Cursor};
pub use errors::StoreError;
pub use pager::{
    spec_load_len, spec_pad, spec_store_slot, Fetch, Pager, ReadRequest, WriteRequest,
};
pub use schema::{
    lemma_row_size_split, spec_row_size, spec_schema_ok, spec_slot_width, Column, ColumnKind,
    ColumnModel, Schema, SchemaModel,
};
pub use table::{
    lemma_close_extent_exact, lemma_close_persists, lemma_exact_division_count,
    lemma_reopen_row_count, lemma_row_place,
    spec_apply_writes, spec_close_extent,
    spec_close_writes, spec_closed_length, spec_flush_size, spec_rows_for_length, Table,
};
pub use values::{
    matches_where_clause, row_lookup, row_set, rows_equal, spec_matches_where, spec_statement_row,
    statement_row, values_equal, RowModel, Row, Statement, StatementType, ValModel, Value,
    WhereClause,
};

verus! {

/// Size in bytes of one page, the unit of file input/output and caching.
pub const PAGE_SIZE: usize = 4096;

/// Hard ceiling on the number of pages a table may use; together with the
/// per-schema rows-per-page figure it bounds the table's row capacity.
pub const TABLE_MAX_PAGES: usize = 100;

} // verus!
