//! The table: a row count and a page cache over one fixed-schema file.
//!
//! A logical row index maps to a page and a byte offset inside it purely by
//! arithmetic: with `rows_per_page = PAGE_SIZE / row_size` rows on every
//! page, row `i` lives on page `i / rows_per_page` at byte offset
//! `(i % rows_per_page) * row_size`. No row ever spans two pages; the tail
//! of a page that cannot hold a whole row stays unused.
//!
//! On open, the row count is derived from the file length alone: whole
//! pages contribute `rows_per_page` rows each, and the trailing partial
//! page as many whole rows as its bytes hold (a trailing fragment of a row
//! is dropped). When the row size divides the page size exactly this equals
//! `file_length / row_size`; the count is capped at the table's capacity.

use vstd::prelude::*;
use vstd::slice::slice_subrange;

use crate::codec::{decode_row, encode_row, lemma_conforming_row_identity,
    lemma_encode_then_decode, lemma_widths_bounded, spec_decode_row, spec_distinct_names,
    spec_encode_row, spec_project_row, spec_row_conforms, spec_row_fits, zero_bytes};
use crate::errors::StoreError;
use crate::pager::{spec_load_len, spec_pad, spec_store_slot, Fetch, Pager, ReadRequest,
    WriteRequest};
use crate::schema::{spec_row_size, spec_schema_ok, Schema, SchemaModel};
use crate::values::{Row, RowModel};
use crate::{PAGE_SIZE, TABLE_MAX_PAGES};

verus! {

/// Row count a file of `file_length` bytes holds under rows of `row_size`
/// bytes: `rows_per_page` rows for every whole page, plus the whole rows of
/// the trailing partial page, capped at the table's capacity.
pub open spec fn spec_rows_for_length(file_length: int, row_size: int) -> int
    recommends
        1 <= row_size <= PAGE_SIZE,
{
    let rpp = PAGE_SIZE as int / row_size;
    let full = file_length / (PAGE_SIZE as int);
    let rem = file_length % (PAGE_SIZE as int);
    let part = if rem / row_size > rpp {
        rpp
    } else {
        rem / row_size
    };
    let n = full * rpp + part;
    if n > rpp * TABLE_MAX_PAGES {
        rpp * TABLE_MAX_PAGES
    } else {
        n
    }
}

/// Length of the file a clean close leaves behind for `n` rows: every full
/// page written whole, the partial page cut exactly after its last row.
pub open spec fn spec_closed_length(n: int, row_size: int) -> int
    recommends
        1 <= row_size <= PAGE_SIZE,
{
    let rpp = PAGE_SIZE as int / row_size;
    (n / rpp) * PAGE_SIZE + (n % rpp) * row_size
}

/// The table: schema, row count, and the page cache of its backing file.
/// `row_size` and `rows_per_page` are cached from the schema.
pub struct Table {
    pub pager: Pager,
    pub num_rows: usize,
    pub schema: Schema,
    pub row_size: usize,
    pub rows_per_page: usize,
}

impl Table {
    /// Page holding row `i`.
    pub open spec fn spec_page_of(&self, i: int) -> int {
        i / (self.rows_per_page as int)
    }

    /// Byte offset of row `i` inside its page.
    pub open spec fn spec_slot_off(&self, i: int) -> int {
        (i % (self.rows_per_page as int)) * (self.row_size as int)
    }

    /// The row ceiling: a full complement of rows on every allowed page.
    pub open spec fn spec_max_rows(&self) -> int {
        (self.rows_per_page as int) * TABLE_MAX_PAGES
    }

    /// Every stored row lies wholly inside the file.
    pub open spec fn rows_in_file(&self) -> bool {
        forall|i: int|
            0 <= i < self.num_rows ==> (#[trigger] self.spec_page_of(i)) * PAGE_SIZE
                + self.spec_slot_off(i) + self.row_size <= self.pager.file_length
    }

    /// Every resident page's buffer covers the stored rows it holds.
    pub open spec fn resident_covered(&self) -> bool {
        forall|i: int|
            0 <= i < self.num_rows && self.pager.spec_resident(#[trigger] self.spec_page_of(i))
                ==> self.spec_slot_off(i) + self.row_size <= self.pager.spec_page(
                self.spec_page_of(i),
            )->0.len()
    }

    /// Well-formed: valid schema with caches in step, a well-formed pager,
    /// the row count within capacity, and the two placement invariants.
    pub open spec fn wf(&self) -> bool {
        &&& self.pager.wf()
        &&& spec_schema_ok(self.schema@)
        &&& self.row_size == spec_row_size(self.schema@)
        &&& self.rows_per_page == PAGE_SIZE as int / (self.row_size as int)
        &&& self.num_rows <= self.spec_max_rows()
        &&& self.rows_in_file()
        &&& self.resident_covered()
    }

    /// The bytes of row `i`'s slot, for a resident, covering page.
    pub open spec fn spec_slot_bytes(&self, i: int) -> Seq<u8> {
        self.pager.spec_page(self.spec_page_of(i))->0.subrange(
            self.spec_slot_off(i),
            self.spec_slot_off(i) + self.row_size,
        )
    }

    /// The row stored at index `i`, or `None` if its slot is corrupt.
    pub open spec fn spec_stored_row(&self, i: int) -> Option<RowModel> {
        spec_decode_row(self.spec_slot_bytes(i), self.schema@)
    }
}

/// Placement arithmetic for a row index below the ceiling: its page is
/// below the page capacity and its slot lies wholly inside one page.
pub proof fn lemma_row_place(n: int, row_size: int, rpp: int)
    requires
        1 <= row_size <= PAGE_SIZE,
        rpp == PAGE_SIZE as int / row_size,
        0 <= n < rpp * TABLE_MAX_PAGES,
    ensures
        1 <= rpp <= PAGE_SIZE,
        0 <= n / rpp < TABLE_MAX_PAGES,
        0 <= n % rpp < rpp,
        (n % rpp) * row_size + row_size <= rpp * row_size <= PAGE_SIZE,
{
    assert(1 <= rpp <= PAGE_SIZE) by (nonlinear_arith)
        requires
            1 <= row_size <= PAGE_SIZE,
            rpp == PAGE_SIZE as int / row_size,
    ;
    assert(rpp * row_size <= PAGE_SIZE) by (nonlinear_arith)
        requires
            1 <= row_size <= PAGE_SIZE,
            rpp == PAGE_SIZE as int / row_size,
    ;
    assert(0 <= n / rpp < TABLE_MAX_PAGES && 0 <= n % rpp < rpp) by (nonlinear_arith)
        requires
            1 <= rpp,
            0 <= n < rpp * TABLE_MAX_PAGES,
    ;
    assert((n % rpp) * row_size + row_size <= rpp * row_size) by (nonlinear_arith)
        requires
            1 <= row_size,
            0 <= n % rpp < rpp,
    ;
}

/// For a row size that divides the page size exactly, the derived row
/// count is plain division: `file_length / row_size`, capped at the
/// table's capacity.
pub proof fn lemma_exact_division_count(file_length: int, row_size: int)
    requires
        1 <= row_size <= PAGE_SIZE,
        PAGE_SIZE as int % row_size == 0,
        0 <= file_length,
    ensures
        spec_rows_for_length(file_length, row_size) == (if file_length / row_size > (
        PAGE_SIZE as int / row_size) * TABLE_MAX_PAGES {
            (PAGE_SIZE as int / row_size) * TABLE_MAX_PAGES
        } else {
            file_length / row_size
        }),
{
    let rpp = PAGE_SIZE as int / row_size;
    let full = file_length / (PAGE_SIZE as int);
    let rem = file_length % (PAGE_SIZE as int);
    assert(rpp * row_size == PAGE_SIZE && rpp >= 1) by (nonlinear_arith)
        requires
            1 <= row_size <= PAGE_SIZE,
            rpp == PAGE_SIZE as int / row_size,
            PAGE_SIZE as int % row_size == 0,
    ;
    assert(file_length == full * PAGE_SIZE + rem && 0 <= rem < PAGE_SIZE && full >= 0) by (
    nonlinear_arith)
        requires
            0 <= file_length,
            full == file_length / (PAGE_SIZE as int),
            rem == file_length % (PAGE_SIZE as int),
    ;
    assert(0 <= rem / row_size && rem / row_size < rpp) by (nonlinear_arith)
        requires
            1 <= row_size,
            0 <= rem,
            rem < rpp * row_size,
    ;
    assert(full * PAGE_SIZE == (full * rpp) * row_size) by (nonlinear_arith)
        requires
            rpp * row_size == PAGE_SIZE,
    ;
    assert(file_length / row_size == full * rpp + rem / row_size) by (nonlinear_arith)
        requires
            1 <= row_size,
            file_length == (full * rpp) * row_size + rem,
            0 <= rem,
            full >= 0,
            rpp >= 1,
            file_length == full * PAGE_SIZE + rem,
            rpp * row_size == PAGE_SIZE,
    ;
}

/// Reopening reads back exactly the row count a clean close wrote: for any
/// row count within capacity, deriving the count from the closed file's
/// length gives the same count.
pub proof fn lemma_reopen_row_count(n: int, row_size: int)
    requires
        1 <= row_size <= PAGE_SIZE,
        0 <= n <= (PAGE_SIZE as int / row_size) * TABLE_MAX_PAGES,
    ensures
        spec_rows_for_length(spec_closed_length(n, row_size), row_size) == n,
{
    let rpp = PAGE_SIZE as int / row_size;
    let q = n / rpp;
    let r = n % rpp;
    assert(rpp >= 1 && rpp * row_size <= PAGE_SIZE) by (nonlinear_arith)
        requires
            1 <= row_size <= PAGE_SIZE,
            rpp == PAGE_SIZE as int / row_size,
    ;
    assert(n == q * rpp + r && 0 <= r < rpp && 0 <= q) by (nonlinear_arith)
        requires
            rpp >= 1,
            0 <= n,
            q == n / rpp,
            r == n % rpp,
    ;
    let len = q * PAGE_SIZE + r * row_size;
    assert(0 <= r * row_size && r * row_size + row_size <= rpp * row_size) by (nonlinear_arith)
        requires
            1 <= row_size,
            0 <= r < rpp || (r == 0 && rpp >= 1),
    ;
    assert(len / (PAGE_SIZE as int) == q && len % (PAGE_SIZE as int) == r * row_size) by (
    nonlinear_arith)
        requires
            0 <= q,
            len == q * PAGE_SIZE + r * row_size,
            0 <= r * row_size,
            r * row_size < PAGE_SIZE,
    ;
    assert((r * row_size) / row_size == r) by (nonlinear_arith)
        requires
            1 <= row_size,
            0 <= r,
    ;
    assert(q * rpp + r == n);
    assert(n <= rpp * TABLE_MAX_PAGES);
}

impl Table {
    /// Opens a table over a file of the given length: nothing resident,
    /// and the row count derived from the length as
    /// [`spec_rows_for_length`] describes.
    pub fn open(schema: Schema, file_length: usize) -> (t: Table)
        requires
            spec_schema_ok(schema@),
        ensures
            t.wf(),
            t.schema@ == schema@,
            t.row_size == spec_row_size(schema@),
            t.rows_per_page == PAGE_SIZE as int / t.row_size as int,
            t.pager.file_length == file_length,
            t.num_rows == spec_rows_for_length(file_length as int, spec_row_size(schema@)),
            forall|p: int| 0 <= p < TABLE_MAX_PAGES ==> !t.pager.spec_resident(p),
    {
        let row_size = schema.row_size();
        let rows_per_page = PAGE_SIZE / row_size;
        proof {
            assert(rows_per_page >= 1) by (nonlinear_arith)
                requires
                    1 <= row_size <= PAGE_SIZE,
                    rows_per_page == PAGE_SIZE as int / row_size as int,
            ;
        }
        let max_rows = rows_per_page * TABLE_MAX_PAGES;
        proof {
            assert(rows_per_page * TABLE_MAX_PAGES <= PAGE_SIZE * TABLE_MAX_PAGES) by (
            nonlinear_arith)
                requires
                    1 <= rows_per_page <= PAGE_SIZE,
            ;
        }
        let full = file_length / PAGE_SIZE;
        let rem = file_length % PAGE_SIZE;
        let part_raw = rem / row_size;
        let part = if part_raw > rows_per_page {
            rows_per_page
        } else {
            part_raw
        };
        let num_rows = if full >= TABLE_MAX_PAGES {
            max_rows
        } else {
            proof {
                assert(full * rows_per_page <= PAGE_SIZE * TABLE_MAX_PAGES) by (nonlinear_arith)
                    requires
                        0 <= full < TABLE_MAX_PAGES,
                        1 <= rows_per_page <= PAGE_SIZE,
                ;
            }
            let n = full * rows_per_page + part;
            if n > max_rows {
                max_rows
            } else {
                n
            }
        };
        proof {
            if full >= TABLE_MAX_PAGES {
                assert(full * rows_per_page + part >= rows_per_page * TABLE_MAX_PAGES) by (
                nonlinear_arith)
                    requires
                        full >= TABLE_MAX_PAGES,
                        rows_per_page >= 1,
                        part >= 0,
                ;
            }
            assert(num_rows == spec_rows_for_length(
                file_length as int,
                spec_row_size(schema@),
            ));
        }
        let pager = Pager::new(file_length);
        let t = Table { pager, num_rows, schema, row_size, rows_per_page };
        proof {
            assert(t.rows_in_file()) by {
                assert forall|i: int| 0 <= i < t.num_rows implies (#[trigger] t.spec_page_of(i))
                    * PAGE_SIZE + t.spec_slot_off(i) + t.row_size <= t.pager.file_length by {
                    lemma_rows_for_length_in_file(file_length as int, row_size as int, i);
                }
            }
        }
        t
    }
}

/// Every row counted by [`spec_rows_for_length`] lies wholly inside the
/// file.
proof fn lemma_rows_for_length_in_file(file_length: int, row_size: int, i: int)
    requires
        1 <= row_size <= PAGE_SIZE,
        0 <= i < spec_rows_for_length(file_length, row_size),
    ensures
        ({
            let rpp = PAGE_SIZE as int / row_size;
            (i / rpp) * PAGE_SIZE + (i % rpp) * row_size + row_size <= file_length
        }),
{
    let rpp = PAGE_SIZE as int / row_size;
    let full = file_length / (PAGE_SIZE as int);
    let rem = file_length % (PAGE_SIZE as int);
    let part = if rem / row_size > rpp {
        rpp
    } else {
        rem / row_size
    };
    assert(rpp >= 1 && rpp * row_size <= PAGE_SIZE) by (nonlinear_arith)
        requires
            1 <= row_size <= PAGE_SIZE,
            rpp == PAGE_SIZE as int / row_size,
    ;
    assert(file_length == full * PAGE_SIZE + rem && 0 <= rem < PAGE_SIZE && full >= 0) by (
    nonlinear_arith)
        requires
            full == file_length / (PAGE_SIZE as int),
            rem == file_length % (PAGE_SIZE as int),
            file_length >= 0 || file_length < 0,
            0 <= i < spec_rows_for_length(file_length, row_size),
            spec_rows_for_length(file_length, row_size) >= 1,
    ;
    let q = i / rpp;
    let r = i % rpp;
    assert(i == q * rpp + r && 0 <= r < rpp && q >= 0) by (nonlinear_arith)
        requires
            rpp >= 1,
            0 <= i,
            q == i / rpp,
            r == i % rpp,
    ;
    assert((r * row_size) + row_size <= rpp * row_size) by (nonlinear_arith)
        requires
            1 <= row_size,
            0 <= r < rpp,
    ;
    if q < full {
        assert((q + 1) * PAGE_SIZE <= full * PAGE_SIZE) by (nonlinear_arith)
            requires
                q + 1 <= full,
        ;
        assert(q * PAGE_SIZE + r * row_size + row_size <= (q + 1) * PAGE_SIZE) by (
        nonlinear_arith)
            requires
                r * row_size + row_size <= rpp * row_size,
                rpp * row_size <= PAGE_SIZE,
        ;
    } else {
        assert(i < full * rpp + part) by {
            if full * rpp + part > rpp * TABLE_MAX_PAGES {
                assert(i < rpp * TABLE_MAX_PAGES);
            }
        }
        assert(q == full && r < part) by (nonlinear_arith)
            requires
                rpp >= 1,
                q >= full,
                i == q * rpp + r,
                0 <= r < rpp,
                0 <= part <= rpp,
                i < full * rpp + part,
                full >= 0,
        ;
        assert(part <= rem / row_size);
        assert((r + 1) * row_size <= (rem / row_size) * row_size <= rem) by (nonlinear_arith)
            requires
                1 <= row_size,
                r + 1 <= rem / row_size,
                0 <= rem,
        ;
        assert((r + 1) * row_size == r * row_size + row_size) by (nonlinear_arith);
        assert(q * PAGE_SIZE + r * row_size + row_size <= full * PAGE_SIZE + rem) by (
        nonlinear_arith)
            requires
                q == full,
                r * row_size + row_size <= rem,
        ;
    }
}

impl Table {
    /// The row stored at `index`, decoded.
    ///
    /// Returns `Done(None)` exactly when `index` is at or past the row
    /// count. Otherwise, if the row's page is not resident, returns the
    /// read that would load it, changing nothing; hand the bytes to
    /// [`Table::install_page`] and retry. With the page resident, returns
    /// the decoded row, or [`StoreError::CorruptRow`] exactly when the
    /// slot's bytes are inconsistent.
    pub fn row_at(&self, index: usize) -> (r: Result<Fetch<Option<Row>>, StoreError>)
        requires
            self.wf(),
        ensures
            match r {
                Ok(Fetch::Done(None)) => index >= self.num_rows,
                Ok(Fetch::Done(Some(row))) => index < self.num_rows && self.pager.spec_resident(
                    self.spec_page_of(index as int),
                ) && self.spec_stored_row(index as int) == Some(row@),
                Ok(Fetch::Load(req)) => index < self.num_rows && !self.pager.spec_resident(
                    self.spec_page_of(index as int),
                ) && req.page == self.spec_page_of(index as int) && req.offset == req.page
                    * PAGE_SIZE && req.len == spec_load_len(
                    self.pager.file_length as int,
                    req.page as int,
                ) && req.len > 0,
                Err(e) => e == StoreError::CorruptRow && index < self.num_rows
                    && self.pager.spec_resident(self.spec_page_of(index as int))
                    && self.spec_stored_row(index as int) is None,
            },
    {
        if index >= self.num_rows {
            return Ok(Fetch::Done(None));
        }
        proof {
            lemma_row_place(index as int, self.row_size as int, self.rows_per_page as int);
        }
        let page = index / self.rows_per_page;
        let byte_off = (index % self.rows_per_page) * self.row_size;
        let offset = page * PAGE_SIZE;
        proof {
            assert(self.spec_page_of(index as int) == page);
            assert(self.spec_slot_off(index as int) == byte_off);
            assert(offset + byte_off + self.row_size <= self.pager.file_length);
        }
        let resident = match &self.pager.pages[page] {
            Some(_) => true,
            None => false,
        };
        if !resident {
            let len = if self.pager.file_length - offset >= PAGE_SIZE {
                PAGE_SIZE
            } else {
                self.pager.file_length - offset
            };
            return Ok(Fetch::Load(ReadRequest { page, offset, len }));
        }
        let buf = self.pager.page_ref(page);
        let slot = slice_subrange(buf.as_slice(), byte_off, byte_off + self.row_size);
        proof {
            assert(slot@ == self.spec_slot_bytes(index as int));
        }
        match decode_row(slot, &self.schema) {
            Ok(row) => Ok(Fetch::Done(Some(row))),
            Err(e) => Err(e),
        }
    }

    /// Forwards the bytes a [`ReadRequest`] asked for to the pager; see
    /// [`Pager::install_page`]. Installing a page changes no stored row.
    pub fn install_page(&mut self, page: usize, bytes: Vec<u8>) -> (ok: bool)
        requires
            old(self).wf(),
        ensures
            final(self).wf(),
            final(self).num_rows == old(self).num_rows,
            final(self).schema == old(self).schema,
            final(self).row_size == old(self).row_size,
            final(self).rows_per_page == old(self).rows_per_page,
            final(self).pager.file_length == old(self).pager.file_length,
            ok <==> {
                &&& page < TABLE_MAX_PAGES
                &&& !old(self).pager.spec_resident(page as int)
                &&& (page * PAGE_SIZE) < old(self).pager.file_length
                &&& bytes@.len() == spec_load_len(
                    old(self).pager.file_length as int,
                    page as int,
                )
            },
            ok ==> final(self).pager.spec_page(page as int) == Some(bytes@) && forall|p: int|
                0 <= p < TABLE_MAX_PAGES && p != page ==> final(self).pager.spec_page(p) == old(
                    self,
                ).pager.spec_page(p),
            !ok ==> *final(self) == *old(self),
    {
        let ghost nbytes = bytes@.len();
        let ok = self.pager.install_page(page, bytes);
        proof {
            assert forall|i: int| 0 <= i < self.num_rows implies (#[trigger] self.spec_page_of(i))
                * PAGE_SIZE + self.spec_slot_off(i) + self.row_size <= self.pager.file_length by {
                assert(old(self).spec_page_of(i) == self.spec_page_of(i));
                assert(old(self).spec_slot_off(i) == self.spec_slot_off(i));
            }
            assert forall|i: int|
                0 <= i < self.num_rows && self.pager.spec_resident(
                    #[trigger] self.spec_page_of(i),
                ) implies self.spec_slot_off(i) + self.row_size <= self.pager.spec_page(
                self.spec_page_of(i),
            )->0.len() by {
                assert(old(self).spec_page_of(i) == self.spec_page_of(i));
                assert(old(self).spec_slot_off(i) == self.spec_slot_off(i));
                if ok && self.spec_page_of(i) == page {
                    assert(self.spec_page_of(i) * PAGE_SIZE + self.spec_slot_off(i)
                        + self.row_size <= self.pager.file_length);
                    assert(self.pager.spec_page(page as int)->0.len() == nbytes);
                    assert(nbytes == spec_load_len(
                        old(self).pager.file_length as int,
                        page as int,
                    ));
                    lemma_row_place(i, self.row_size as int, self.rows_per_page as int);
                } else {
                    assert(self.pager.spec_page(self.spec_page_of(i)) == old(
                        self,
                    ).pager.spec_page(old(self).spec_page_of(i)));
                }
            }
        }
        ok
    }
}

} // verus!

verus! {

/// Bytes of page `p` that a close must flush for a table of `n` rows:
/// a whole page below the full-page count, the rows of the trailing
/// partial page, nothing beyond it.
pub open spec fn spec_flush_size(n: int, rpp: int, row_size: int, p: int) -> int {
    let full = n / rpp;
    if p < full {
        PAGE_SIZE as int
    } else if p == full {
        (n % rpp) * row_size
    } else {
        0
    }
}

/// The writes a close of table state `t` issues for pages below `upto`,
/// in page order: one per resident page with a positive flush size, of the
/// page's buffer padded to and cut at that size.
pub open spec fn spec_close_writes(t: Table, upto: int) -> Seq<(int, Seq<u8>)>
    decreases upto,
{
    if upto <= 0 {
        Seq::empty()
    } else {
        let p = upto - 1;
        let size = spec_flush_size(t.num_rows as int, t.rows_per_page as int, t.row_size as int, p);
        let prev = spec_close_writes(t, p);
        if t.pager.spec_resident(p) && size > 0 {
            let padded = spec_pad(t.pager.spec_page(p)->0, size);
            prev + seq![(p * PAGE_SIZE, padded.subrange(0, size))]
        } else {
            prev
        }
    }
}

/// Farthest byte any close write for pages below `upto` reaches.
pub open spec fn spec_close_extent(t: Table, upto: int) -> int
    decreases upto,
{
    if upto <= 0 {
        0
    } else {
        let p = upto - 1;
        let size = spec_flush_size(t.num_rows as int, t.rows_per_page as int, t.row_size as int, p);
        let prev = spec_close_extent(t, p);
        let e = if t.pager.spec_resident(p) && size > 0 {
            p * PAGE_SIZE + size
        } else {
            0
        };
        if e > prev {
            e
        } else {
            prev
        }
    }
}

impl Table {
    /// Appends `row` at the next free slot and describes the write that
    /// makes it durable.
    ///
    /// Fails with [`StoreError::TableFull`], changing nothing, exactly when
    /// the row count has reached the page-capacity ceiling; otherwise with
    /// [`StoreError::ValueTooLarge`], changing nothing, exactly when a text
    /// value of `row` is longer than its column's slot. If the target page
    /// must first be read from the file, returns that read (`Load`),
    /// changing nothing; hand the bytes to [`Table::install_page`] and call
    /// again. Otherwise the row's slot is written in its page, the row
    /// count grows by one, and the returned write carries the page's bytes
    /// from its start through the new row, at the page's file offset.
    pub fn insert(&mut self, row: &Row) -> (r: Result<Fetch<WriteRequest>, StoreError>)
        requires
            old(self).wf(),
        ensures
            final(self).wf(),
            final(self).schema == old(self).schema,
            final(self).row_size == old(self).row_size,
            final(self).rows_per_page == old(self).rows_per_page,
            match r {
                Err(StoreError::TableFull) => old(self).num_rows >= old(self).spec_max_rows()
                    && *final(self) == *old(self),
                Err(StoreError::ValueTooLarge) => old(self).num_rows < old(self).spec_max_rows()
                    && !spec_row_fits(row@, old(self).schema@) && *final(self) == *old(self),
                Ok(Fetch::Load(req)) => {
                    &&& old(self).num_rows < old(self).spec_max_rows()
                    &&& spec_row_fits(row@, old(self).schema@)
                    &&& !old(self).pager.spec_resident(
                        old(self).spec_page_of(old(self).num_rows as int),
                    )
                    &&& req.page == old(self).spec_page_of(old(self).num_rows as int)
                    &&& req.offset == req.page * PAGE_SIZE
                    &&& (req.page * PAGE_SIZE) < old(self).pager.file_length
                    &&& req.len == spec_load_len(
                        old(self).pager.file_length as int,
                        req.page as int,
                    )
                    &&& *final(self) == *old(self)
                },
                Ok(Fetch::Done(w)) => {
                    let i = old(self).num_rows as int;
                    let page = old(self).spec_page_of(i);
                    let off = old(self).spec_slot_off(i);
                    let enc = spec_encode_row(row@, old(self).schema@);
                    let base = if old(self).pager.spec_resident(page) {
                        old(self).pager.spec_page(page)->0
                    } else {
                        zero_bytes(PAGE_SIZE as int)
                    };
                    &&& old(self).num_rows < old(self).spec_max_rows()
                    &&& spec_row_fits(row@, old(self).schema@)
                    &&& (old(self).pager.spec_resident(page) || page * PAGE_SIZE >= old(
                        self,
                    ).pager.file_length)
                    &&& final(self).num_rows == old(self).num_rows + 1
                    &&& final(self).pager.spec_page(page) == Some(spec_store_slot(base, off, enc))
                    &&& forall|p: int|
                        0 <= p < TABLE_MAX_PAGES && p != page ==> final(self).pager.spec_page(p)
                            == old(self).pager.spec_page(p)
                    &&& w.offset == page * PAGE_SIZE
                    &&& w.bytes@ == spec_store_slot(base, off, enc).subrange(
                        0,
                        off + old(self).row_size,
                    )
                    &&& final(self).pager.file_length == (if page * PAGE_SIZE + off + old(
                        self,
                    ).row_size > old(self).pager.file_length {
                        page * PAGE_SIZE + off + old(self).row_size
                    } else {
                        old(self).pager.file_length as int
                    })
                    &&& final(self).spec_stored_row(i) == Some(
                        spec_project_row(row@, old(self).schema@),
                    )
                    &&& (spec_row_conforms(row@, old(self).schema@) && spec_distinct_names(
                        old(self).schema@,
                    ) ==> final(self).spec_stored_row(i) == Some(row@))
                },
                _ => false,
            },
    {
        proof {
            assert(1 <= self.rows_per_page <= PAGE_SIZE) by (nonlinear_arith)
                requires
                    1 <= self.row_size <= PAGE_SIZE,
                    self.rows_per_page == PAGE_SIZE as int / self.row_size as int,
            ;
            assert(self.rows_per_page * TABLE_MAX_PAGES <= PAGE_SIZE * TABLE_MAX_PAGES) by (
            nonlinear_arith)
                requires
                    1 <= self.rows_per_page <= PAGE_SIZE,
            ;
        }
        let max_rows = self.rows_per_page * TABLE_MAX_PAGES;
        if self.num_rows >= max_rows {
            return Err(StoreError::TableFull);
        }
        let enc = match encode_row(row, &self.schema) {
            Ok(b) => b,
            Err(e) => {
                return Err(e);
            },
        };
        proof {
            lemma_row_place(
                old(self).num_rows as int,
                self.row_size as int,
                self.rows_per_page as int,
            );
        }
        let page = self.num_rows / self.rows_per_page;
        let byte_off = (self.num_rows % self.rows_per_page) * self.row_size;
        match self.pager.prepare_page(page) {
            Err(_) => {
                proof {
                    assert(false);
                }
                unreached()
            },
            Ok(Some(req)) => {
                return Ok(Fetch::Load(req));
            },
            Ok(None) => {},
        }
        let ghost base = if old(self).pager.spec_resident(page as int) {
            old(self).pager.spec_page(page as int)->0
        } else {
            zero_bytes(PAGE_SIZE as int)
        };
        proof {
            assert(self.pager.spec_page(page as int) == Some(base));
        }
        self.pager.write_slot(page, byte_off, enc.as_slice());
        self.num_rows = self.num_rows + 1;
        let size = byte_off + self.row_size;
        proof {
            assert(self.pager.spec_page(page as int)->0.len() >= size);
        }
        let w = match self.pager.flush(page, size) {
            Some(w) => w,
            None => {
                proof {
                    assert(false);
                }
                unreached()
            },
        };
        proof {
            let i = old(self).num_rows as int;
            let enc_s = spec_encode_row(row@, old(self).schema@);
            assert(self.pager.spec_page(page as int) == Some(
                spec_store_slot(base, byte_off as int, enc_s),
            ));
            assert(self.spec_slot_bytes(i) =~= enc_s);
            assert forall|k: int| 0 <= k < old(self).schema@.len() implies
                crate::schema::spec_slot_width((#[trigger] old(self).schema@[k]).kind)
                <= PAGE_SIZE by {
                lemma_widths_bounded(old(self).schema@, k);
            }
            lemma_encode_then_decode(row@, old(self).schema@);
            if spec_row_conforms(row@, old(self).schema@) && spec_distinct_names(
                old(self).schema@,
            ) {
                lemma_conforming_row_identity(row@, old(self).schema@);
            }
            assert forall|j: int| 0 <= j < self.num_rows implies (#[trigger] self.spec_page_of(j))
                * PAGE_SIZE + self.spec_slot_off(j) + self.row_size
                <= self.pager.file_length by {
                if j < old(self).num_rows {
                    assert(old(self).spec_page_of(j) == self.spec_page_of(j));
                    assert(old(self).spec_slot_off(j) == self.spec_slot_off(j));
                }
            }
            assert forall|j: int|
                0 <= j < self.num_rows && self.pager.spec_resident(
                    #[trigger] self.spec_page_of(j),
                ) implies self.spec_slot_off(j) + self.row_size <= self.pager.spec_page(
                self.spec_page_of(j),
            )->0.len() by {
                assert(old(self).spec_page_of(j) == self.spec_page_of(j));
                assert(old(self).spec_slot_off(j) == self.spec_slot_off(j));
                if self.spec_page_of(j) == page as int {
                    if j < old(self).num_rows {
                        if old(self).pager.spec_resident(page as int) {
                            assert(old(self).spec_slot_off(j) + self.row_size <= base.len());
                        } else {
                            lemma_row_place(
                                j,
                                self.row_size as int,
                                self.rows_per_page as int,
                            );
                        }
                    }
                }
            }
        }
        Ok(Fetch::Done(w))
    }

    /// Flushes the table's resident pages: every full page at the whole
    /// page size (padded with zeros if its buffer was shorter), the trailing
    /// partial page at exactly its rows' extent. Pages never touched are
    /// skipped — they were never modified. Returns the writes in page
    /// order; the file length grows to the farthest write, as
    /// [`spec_close_extent`] describes.
    pub fn close(&mut self) -> (ws: Vec<WriteRequest>)
        requires
            old(self).wf(),
        ensures
            final(self).wf(),
            final(self).num_rows == old(self).num_rows,
            final(self).schema == old(self).schema,
            final(self).row_size == old(self).row_size,
            final(self).rows_per_page == old(self).rows_per_page,
            ws@.map_values(|w: WriteRequest| (w.offset as int, w.bytes@)) == spec_close_writes(
                *old(self),
                TABLE_MAX_PAGES as int,
            ),
            final(self).pager.file_length == (if spec_close_extent(
                *old(self),
                TABLE_MAX_PAGES as int,
            ) > old(self).pager.file_length {
                spec_close_extent(*old(self), TABLE_MAX_PAGES as int)
            } else {
                old(self).pager.file_length as int
            }),
    {
        proof {
            assert(1 <= self.rows_per_page <= PAGE_SIZE && self.rows_per_page * self.row_size
                <= PAGE_SIZE) by (nonlinear_arith)
                requires
                    1 <= self.row_size <= PAGE_SIZE,
                    self.rows_per_page == PAGE_SIZE as int / self.row_size as int,
            ;
            assert(0 <= self.num_rows as int % (self.rows_per_page as int) < self.rows_per_page
                && 0 <= self.num_rows as int / (self.rows_per_page as int)
                <= TABLE_MAX_PAGES) by (nonlinear_arith)
                requires
                    1 <= self.rows_per_page,
                    0 <= self.num_rows <= self.rows_per_page * TABLE_MAX_PAGES,
            ;
            assert((self.num_rows as int % (self.rows_per_page as int)) * self.row_size
                + self.row_size <= self.rows_per_page * self.row_size) by (nonlinear_arith)
                requires
                    1 <= self.row_size,
                    0 <= self.num_rows as int % (self.rows_per_page as int)
                        < self.rows_per_page,
            ;
        }
        let full = self.num_rows / self.rows_per_page;
        let partial = self.num_rows % self.rows_per_page;
        let partial_size = partial * self.row_size;
        let mut ws: Vec<WriteRequest> = Vec::new();
        let mut p: usize = 0;
        while p < TABLE_MAX_PAGES
            invariant
                0 <= p <= TABLE_MAX_PAGES,
                old(self).wf(),
                self.num_rows == old(self).num_rows,
                self.schema == old(self).schema,
                self.row_size == old(self).row_size,
                self.rows_per_page == old(self).rows_per_page,
                self.wf(),
                1 <= self.rows_per_page <= PAGE_SIZE,
                self.rows_per_page * self.row_size <= PAGE_SIZE,
                full == self.num_rows as int / (self.rows_per_page as int),
                partial == self.num_rows as int % (self.rows_per_page as int),
                0 <= partial < self.rows_per_page,
                full <= TABLE_MAX_PAGES,
                partial_size == partial * self.row_size,
                partial_size + self.row_size <= PAGE_SIZE,
                forall|q: int|
                    0 <= q < TABLE_MAX_PAGES ==> ((#[trigger] self.pager.spec_resident(q))
                        <==> old(self).pager.spec_resident(q)),
                forall|q: int|
                    0 <= q < TABLE_MAX_PAGES && self.pager.spec_resident(q) ==> (
                    #[trigger] self.pager.spec_page(q))->0.len() >= old(self).pager.spec_page(
                        q,
                    )->0.len(),
                forall|q: int|
                    p <= q < TABLE_MAX_PAGES ==> #[trigger] self.pager.spec_page(q) == old(
                        self,
                    ).pager.spec_page(q),
                ws@.map_values(|w: WriteRequest| (w.offset as int, w.bytes@))
                    == spec_close_writes(*old(self), p as int),
                self.pager.file_length == (if spec_close_extent(*old(self), p as int) > old(
                    self,
                ).pager.file_length {
                    spec_close_extent(*old(self), p as int)
                } else {
                    old(self).pager.file_length as int
                }),
            decreases TABLE_MAX_PAGES - p,
        {
            let size: usize = if p < full {
                PAGE_SIZE
            } else if p == full {
                partial_size
            } else {
                0
            };
            proof {
                assert(size == spec_flush_size(
                    old(self).num_rows as int,
                    old(self).rows_per_page as int,
                    old(self).row_size as int,
                    p as int,
                ));
            }
            let resident = self.pager.is_resident(p);
            if resident && size > 0 {
                let ghost buf0 = old(self).pager.spec_page(p as int)->0;
                proof {
                    assert(self.pager.spec_page(p as int) == Some(buf0));
                    if p == full && partial > 0 {
                        let j = full as int * (self.rows_per_page as int) + (partial - 1);
                        assert(j == self.num_rows - 1 && j / (self.rows_per_page as int)
                            == full && j % (self.rows_per_page as int) == partial - 1) by (
                        nonlinear_arith)
                            requires
                                1 <= self.rows_per_page,
                                0 < partial < self.rows_per_page,
                                full == self.num_rows as int / (self.rows_per_page as int),
                                partial == self.num_rows as int % (self.rows_per_page as int),
                                j == full as int * (self.rows_per_page as int) + (partial - 1),
                        ;
                        assert(self.spec_page_of(j) == p as int);
                        assert(self.spec_slot_off(j) == (partial - 1) * self.row_size);
                        assert((partial - 1) * self.row_size + self.row_size == partial
                            * self.row_size) by (nonlinear_arith);
                        assert(self.pager.spec_resident(self.spec_page_of(j)));
                        assert(self.spec_slot_off(j) + self.row_size <= self.pager.spec_page(
                            p as int,
                        )->0.len());
                        assert(self.pager.spec_page(p as int)->0.len() >= partial_size);
                    }
                }
                proof {
                    assert(old(self).pager.spec_resident(p as int));
                }
                let ghost padded = spec_pad(buf0, size as int);
                let w = self.pager.pad_and_flush(p, size);
                proof {
                    assert(self.pager.spec_page(p as int) == Some(padded));
                    assert(w.offset == p * PAGE_SIZE);
                    assert(w.bytes@ == padded.subrange(0, size as int));
                    assert(spec_close_writes(*old(self), p + 1 as int) == spec_close_writes(
                        *old(self),
                        p as int,
                    ) + seq![(p as int * PAGE_SIZE, padded.subrange(0, size as int))]);
                }
                ws.push(w);
                proof {
                    assert(ws@.map_values(|x: WriteRequest| (x.offset as int, x.bytes@))
                        =~= spec_close_writes(*old(self), p + 1 as int));
                    assert(self.pager.file_length >= old(self).pager.file_length);
                    assert(padded.len() >= buf0.len());
                    assert forall|q: int| 0 <= q < TABLE_MAX_PAGES implies ((
                    #[trigger] self.pager.spec_resident(q)) <==> old(self).pager.spec_resident(
                        q,
                    )) by {}
                    assert forall|q: int|
                        0 <= q < TABLE_MAX_PAGES && self.pager.spec_resident(q) implies (
                    #[trigger] self.pager.spec_page(q))->0.len() >= old(self).pager.spec_page(
                        q,
                    )->0.len() by {
                        if q == p as int {
                            assert(self.pager.spec_page(q) == Some(padded));
                        }
                    }
                    assert forall|j: int|
                        0 <= j < self.num_rows && self.pager.spec_resident(
                            #[trigger] self.spec_page_of(j),
                        ) implies self.spec_slot_off(j) + self.row_size <= self.pager.spec_page(
                        self.spec_page_of(j),
                    )->0.len() by {
                        lemma_row_place(j, self.row_size as int, self.rows_per_page as int);
                        assert(old(self).spec_page_of(j) == self.spec_page_of(j));
                        assert(old(self).spec_slot_off(j) == self.spec_slot_off(j));
                        assert(0 <= self.spec_page_of(j) < TABLE_MAX_PAGES);
                        assert(old(self).pager.spec_resident(self.spec_page_of(j)));
                        assert(old(self).spec_slot_off(j) + old(self).row_size <= old(
                            self,
                        ).pager.spec_page(old(self).spec_page_of(j))->0.len());
                        assert(self.pager.spec_page(self.spec_page_of(j))->0.len() >= old(
                            self,
                        ).pager.spec_page(self.spec_page_of(j))->0.len());
                    }
                    assert forall|j: int| 0 <= j < self.num_rows implies (
                    #[trigger] self.spec_page_of(j)) * PAGE_SIZE + self.spec_slot_off(j)
                        + self.row_size <= self.pager.file_length by {
                        assert(old(self).spec_page_of(j) == self.spec_page_of(j));
                        assert(old(self).spec_slot_off(j) == self.spec_slot_off(j));
                        assert(old(self).spec_page_of(j) * PAGE_SIZE + old(self).spec_slot_off(j)
                            + old(self).row_size <= old(self).pager.file_length);
                    }
                }
            } else {
                proof {
                    assert(spec_close_writes(*old(self), p + 1 as int) == spec_close_writes(
                        *old(self),
                        p as int,
                    ));
                    assert(spec_close_extent(*old(self), p + 1 as int) == spec_close_extent(
                        *old(self),
                        p as int,
                    ));
                }
            }
            p += 1;
        }
        ws
    }
}

/// When every page that holds rows is resident, the writes of a close reach
/// exactly the closed file length for the table's row count: full pages
/// whole, the partial page cut after its last row.
pub proof fn lemma_close_extent_exact(t: Table)
    requires
        t.wf(),
        forall|p: int|
            0 <= p < TABLE_MAX_PAGES && spec_flush_size(
                t.num_rows as int,
                t.rows_per_page as int,
                t.row_size as int,
                p,
            ) > 0 ==> t.pager.spec_resident(p),
    ensures
        spec_close_extent(t, TABLE_MAX_PAGES as int) == spec_closed_length(
            t.num_rows as int,
            t.row_size as int,
        ),
{
    let n = t.num_rows as int;
    let rpp = t.rows_per_page as int;
    let rs = t.row_size as int;
    let full = n / rpp;
    let part = n % rpp;
    assert(1 <= rpp && rpp * rs <= PAGE_SIZE && 0 <= full <= TABLE_MAX_PAGES && 0 <= part < rpp
        && 0 <= part * rs <= PAGE_SIZE - rs) by (nonlinear_arith)
        requires
            1 <= rs <= PAGE_SIZE,
            rpp == PAGE_SIZE as int / rs,
            0 <= n <= rpp * TABLE_MAX_PAGES,
            full == n / rpp,
            part == n % rpp,
    ;
    assert(full == TABLE_MAX_PAGES ==> part == 0 && part * rs == 0) by (nonlinear_arith)
        requires
            1 <= rpp,
            n <= rpp * TABLE_MAX_PAGES,
            full == n / rpp,
            part == n % rpp,
    ;
    assert(part == 0 ==> part * rs == 0) by (nonlinear_arith);
    lemma_close_extent_steps(t, TABLE_MAX_PAGES as int, full, part * rs);
}

proof fn lemma_close_extent_steps(t: Table, upto: int, full: int, part_size: int)
    requires
        t.wf(),
        full == t.num_rows as int / (t.rows_per_page as int),
        part_size == (t.num_rows as int % (t.rows_per_page as int)) * t.row_size,
        0 <= full,
        0 <= part_size <= PAGE_SIZE - t.row_size,
        full == TABLE_MAX_PAGES ==> part_size == 0,
        0 <= upto <= TABLE_MAX_PAGES,
        forall|p: int|
            0 <= p < TABLE_MAX_PAGES && spec_flush_size(
                t.num_rows as int,
                t.rows_per_page as int,
                t.row_size as int,
                p,
            ) > 0 ==> t.pager.spec_resident(p),
    ensures
        spec_close_extent(t, upto) == (if upto <= full {
            upto * PAGE_SIZE
        } else if full * PAGE_SIZE + part_size > full * PAGE_SIZE {
            full * PAGE_SIZE + part_size
        } else {
            full * PAGE_SIZE
        }),
    decreases upto,
{
    if upto == 0 {
    } else {
        lemma_close_extent_steps(t, upto - 1, full, part_size);
        let p = upto - 1;
        assert((p + 1) * PAGE_SIZE == p * PAGE_SIZE + PAGE_SIZE) by (nonlinear_arith);
        assert(p * PAGE_SIZE >= 0 && (p <= full ==> p * PAGE_SIZE <= full * PAGE_SIZE)) by (
        nonlinear_arith)
            requires
                0 <= p,
                p <= full ==> p <= full,
        ;
        if p < full {
            assert(spec_flush_size(
                t.num_rows as int,
                t.rows_per_page as int,
                t.row_size as int,
                p,
            ) == PAGE_SIZE);
        }
    }
}

} // verus!

verus! {

/// A file after performing a list of writes in order, each write as
/// [`spec_store_slot`] describes: overwrite in place, zero-fill any gap,
/// extend the file as needed.
pub open spec fn spec_apply_writes(file: Seq<u8>, writes: Seq<(int, Seq<u8>)>) -> Seq<u8>
    decreases writes.len(),
{
    if writes.len() == 0 {
        file
    } else {
        spec_apply_writes(spec_store_slot(file, writes[0].0, writes[0].1), writes.drop_first())
    }
}

proof fn lemma_apply_writes_push(file: Seq<u8>, writes: Seq<(int, Seq<u8>)>, w: (int, Seq<u8>))
    ensures
        spec_apply_writes(file, writes.push(w)) == spec_store_slot(
            spec_apply_writes(file, writes),
            w.0,
            w.1,
        ),
    decreases writes.len(),
{
    if writes.len() == 0 {
        assert(writes.push(w)[0] == w);
        assert(writes.push(w).drop_first() =~= Seq::<(int, Seq<u8>)>::empty());
        assert(spec_apply_writes(file, writes) == file);
        assert(spec_apply_writes(file, writes.push(w)) == spec_apply_writes(
            spec_store_slot(file, w.0, w.1),
            writes.push(w).drop_first(),
        ));
        assert(spec_apply_writes(spec_store_slot(file, w.0, w.1), writes.push(w).drop_first())
            == spec_store_slot(file, w.0, w.1));
    } else {
        assert(writes.push(w)[0] == writes[0]);
        assert(writes.push(w).drop_first() =~= writes.drop_first().push(w));
        let file1 = spec_store_slot(file, writes[0].0, writes[0].1);
        lemma_apply_writes_push(file1, writes.drop_first(), w);
        assert(spec_apply_writes(file, writes.push(w)) == spec_apply_writes(
            file1,
            writes.push(w).drop_first(),
        ));
        assert(spec_apply_writes(file1, writes.push(w).drop_first()) == spec_apply_writes(
            file1,
            writes.drop_first().push(w),
        ));
        assert(spec_apply_writes(file, writes) == spec_apply_writes(file1, writes.drop_first()));
    }
}

/// The file a close leaves behind, page write by page write: every flushed
/// byte lands at its page's offset, and the file ends at the farthest
/// write (or where it already ended, if that is farther).
proof fn lemma_close_writes_apply(t: Table, file: Seq<u8>, upto: int)
    requires
        t.wf(),
        0 <= upto <= TABLE_MAX_PAGES,
    ensures
        ({
            let file2 = spec_apply_writes(file, spec_close_writes(t, upto));
            let n = t.num_rows as int;
            let rpp = t.rows_per_page as int;
            let rs = t.row_size as int;
            &&& file2.len() == (if spec_close_extent(t, upto) > file.len() {
                spec_close_extent(t, upto)
            } else {
                file.len() as int
            })
            &&& forall|p: int|
                0 <= p < upto && t.pager.spec_resident(p) && spec_flush_size(n, rpp, rs, p) > 0
                    ==> p * PAGE_SIZE + spec_flush_size(n, rpp, rs, p) <= file2.len()
            &&& forall|p: int, k: int|
                0 <= p < upto && t.pager.spec_resident(p) && 0 <= k < spec_flush_size(
                    n,
                    rpp,
                    rs,
                    p,
                ) ==> #[trigger] file2[p * PAGE_SIZE + k] == spec_pad(
                    t.pager.spec_page(p)->0,
                    spec_flush_size(n, rpp, rs, p),
                )[k]
        }),
    decreases upto,
{
    let n = t.num_rows as int;
    let rpp = t.rows_per_page as int;
    let rs = t.row_size as int;
    if upto == 0 {
        assert(spec_close_writes(t, 0) =~= Seq::<(int, Seq<u8>)>::empty());
    } else {
        lemma_close_writes_apply(t, file, upto - 1);
        let p = upto - 1;
        let size = spec_flush_size(n, rpp, rs, p);
        let prev = spec_apply_writes(file, spec_close_writes(t, upto - 1));
        assert(0 <= size <= PAGE_SIZE) by (nonlinear_arith)
            requires
                size == spec_flush_size(n, rpp, rs, p),
                1 <= rs <= PAGE_SIZE,
                rpp == PAGE_SIZE as int / rs,
                0 <= n <= rpp * TABLE_MAX_PAGES,
        ;
        if t.pager.spec_resident(p) && size > 0 {
            let padded = spec_pad(t.pager.spec_page(p)->0, size);
            assert(spec_close_writes(t, upto) == spec_close_writes(t, upto - 1) + seq![
                (p * PAGE_SIZE, padded.subrange(0, size)),
            ]);
            assert(spec_close_writes(t, upto - 1).push((p * PAGE_SIZE, padded.subrange(0, size)))
                =~= spec_close_writes(t, upto));
            lemma_apply_writes_push(
                file,
                spec_close_writes(t, upto - 1),
                (p * PAGE_SIZE, padded.subrange(0, size)),
            );
            let file2 = spec_store_slot(prev, p * PAGE_SIZE, padded.subrange(0, size));
            assert(padded.len() >= size);
            assert(padded.subrange(0, size).len() == size);
            assert(p * PAGE_SIZE >= 0) by (nonlinear_arith)
                requires
                    p >= 0,
            ;
            assert(file2.len() == (if p * PAGE_SIZE + size > prev.len() {
                p * PAGE_SIZE + size
            } else {
                prev.len() as int
            }));
            assert(spec_close_extent(t, upto) == (if p * PAGE_SIZE + size > spec_close_extent(
                t,
                upto - 1,
            ) {
                p * PAGE_SIZE + size
            } else {
                spec_close_extent(t, upto - 1)
            }));
            assert forall|q: int|
                0 <= q < upto && t.pager.spec_resident(q) && spec_flush_size(n, rpp, rs, q) > 0
                    implies q * PAGE_SIZE + spec_flush_size(n, rpp, rs, q) <= file2.len() by {
                if q < upto - 1 {
                    assert(q * PAGE_SIZE + spec_flush_size(n, rpp, rs, q) <= prev.len());
                    assert(prev.len() <= file2.len());
                }
            }
            assert forall|q: int, k: int|
                0 <= q < upto && t.pager.spec_resident(q) && 0 <= k < spec_flush_size(
                    n,
                    rpp,
                    rs,
                    q,
                ) implies #[trigger] file2[q * PAGE_SIZE + k] == spec_pad(
                t.pager.spec_page(q)->0,
                spec_flush_size(n, rpp, rs, q),
            )[k] by {
                let sq = spec_flush_size(n, rpp, rs, q);
                if q == p {
                    assert(file2[p * PAGE_SIZE + k] == padded.subrange(0, size)[k]);
                } else if q < p {
                    assert(0 <= sq <= PAGE_SIZE) by (nonlinear_arith)
                        requires
                            sq == spec_flush_size(n, rpp, rs, q),
                            1 <= rs <= PAGE_SIZE,
                            rpp == PAGE_SIZE as int / rs,
                            0 <= n <= rpp * TABLE_MAX_PAGES,
                    ;
                    assert(q * PAGE_SIZE + k < p * PAGE_SIZE) by (nonlinear_arith)
                        requires
                            0 <= q < p,
                            0 <= k < sq <= PAGE_SIZE,
                    ;
                    assert(q * PAGE_SIZE + sq <= prev.len());
                    assert(q * PAGE_SIZE + k < prev.len());
                    assert(file2[q * PAGE_SIZE + k] == prev[q * PAGE_SIZE + k]);
                } else {
                    assert(q * PAGE_SIZE >= p * PAGE_SIZE + size) by (nonlinear_arith)
                        requires
                            q > p,
                            size <= PAGE_SIZE,
                    ;
                    assert(file2[q * PAGE_SIZE + k] == prev[q * PAGE_SIZE + k]);
                }
            }
        } else {
            assert(spec_close_writes(t, upto) == spec_close_writes(t, upto - 1));
            assert(spec_close_extent(t, upto) == spec_close_extent(t, upto - 1));
        }
    }
}

/// Persistence of a clean close. For a table whose row-holding pages are
/// all resident, applying the writes of its close to the backing file
/// leaves each stored row's slot bytes intact at the row's file position;
/// and if the file had not grown beyond the close's extent, the resulting
/// file length is exactly [`spec_closed_length`], so a reopen derives the
/// same row count.
pub proof fn lemma_close_persists(t: Table, file: Seq<u8>)
    requires
        t.wf(),
        forall|p: int|
            0 <= p < TABLE_MAX_PAGES && spec_flush_size(
                t.num_rows as int,
                t.rows_per_page as int,
                t.row_size as int,
                p,
            ) > 0 ==> t.pager.spec_resident(p),
    ensures
        ({
            let file2 = spec_apply_writes(file, spec_close_writes(t, TABLE_MAX_PAGES as int));
            &&& forall|i: int|
                0 <= i < t.num_rows ==> file2.subrange(
                    (#[trigger] t.spec_page_of(i)) * PAGE_SIZE + t.spec_slot_off(i),
                    t.spec_page_of(i) * PAGE_SIZE + t.spec_slot_off(i) + t.row_size,
                ) == t.spec_slot_bytes(i)
            &&& file.len() <= spec_closed_length(t.num_rows as int, t.row_size as int) ==> {
                &&& file2.len() == spec_closed_length(t.num_rows as int, t.row_size as int)
                &&& spec_rows_for_length(file2.len() as int, t.row_size as int)
                    == t.num_rows as int
            }
        }),
{
    let n = t.num_rows as int;
    let rpp = t.rows_per_page as int;
    let rs = t.row_size as int;
    let file2 = spec_apply_writes(file, spec_close_writes(t, TABLE_MAX_PAGES as int));
    lemma_close_writes_apply(t, file, TABLE_MAX_PAGES as int);
    lemma_close_extent_exact(t);
    assert forall|i: int| 0 <= i < t.num_rows implies file2.subrange(
        (#[trigger] t.spec_page_of(i)) * PAGE_SIZE + t.spec_slot_off(i),
        t.spec_page_of(i) * PAGE_SIZE + t.spec_slot_off(i) + t.row_size,
    ) == t.spec_slot_bytes(i) by {
        lemma_row_place(i, rs, rpp);
        let p = t.spec_page_of(i);
        let off = t.spec_slot_off(i);
        let size = spec_flush_size(n, rpp, rs, p);
        assert(off + rs <= size) by (nonlinear_arith)
            requires
                1 <= rs,
                1 <= rpp,
                rpp * rs <= PAGE_SIZE,
                0 <= i < n <= rpp * TABLE_MAX_PAGES,
                p == i / rpp,
                off == (i % rpp) * rs,
                size == spec_flush_size(n, rpp, rs, p),
                spec_flush_size(n, rpp, rs, p) == (if p < n / rpp {
                    PAGE_SIZE as int
                } else if p == n / rpp {
                    (n % rpp) * rs
                } else {
                    0
                }),
        ;
        assert(size > 0);
        assert(t.pager.spec_resident(p));
        let buf = t.pager.spec_page(p)->0;
        assert(off + rs <= buf.len());
        let padded = spec_pad(buf, size);
        assert forall|j: int| 0 <= j < rs implies #[trigger] file2[p * PAGE_SIZE + off + j]
            == buf[off + j] by {
            assert(file2[p * PAGE_SIZE + (off + j)] == padded[off + j]);
            assert(padded[off + j] == buf[off + j]);
        }
        assert(p * PAGE_SIZE + size <= file2.len());
        assert(p * PAGE_SIZE + off + rs <= file2.len());
        assert forall|m: int| 0 <= m < rs implies #[trigger] file2.subrange(
            p * PAGE_SIZE + off,
            p * PAGE_SIZE + off + rs,
        )[m] == buf.subrange(off, off + rs)[m] by {
            assert(file2.subrange(p * PAGE_SIZE + off, p * PAGE_SIZE + off + rs)[m] == file2[p
                * PAGE_SIZE + off + m]);
            assert(file2[p * PAGE_SIZE + off + m] == buf[off + m]);
            assert(buf.subrange(off, off + rs)[m] == buf[off + m]);
        }
        assert(file2.subrange(p * PAGE_SIZE + off, p * PAGE_SIZE + off + rs) =~= buf.subrange(
            off,
            off + rs,
        ));
    }
    if file.len() <= spec_closed_length(n, rs) {
        assert(file2.len() == spec_closed_length(n, rs));
        lemma_reopen_row_count(n, rs);
    }
}

} // verus!
