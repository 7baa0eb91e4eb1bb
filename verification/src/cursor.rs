//! The cursor: forward-only, one-row-at-a-time traversal of a table.
//!
//! A cursor does not own or borrow the table; every operation takes the
//! table it walks. It starts at row zero (already at the end for an empty
//! table), advances one row at a time, and never moves backward. Scanning
//! and filtered selection are built on it.

use vstd::prelude::*;

use crate::errors::StoreError;
use crate::PAGE_SIZE;
use crate::pager::Fetch;
use crate::table::Table;
use crate::values::{matches_where_clause, spec_matches_where, Row, RowModel, WhereClause};

verus! {

/// A position in a table's row sequence: the current row index, and
/// whether the end has been reached.
#[derive(Clone, Copy, Debug)]
pub struct Cursor {
    pub row_num: usize,
    pub end_of_table: bool,
}

impl Cursor {
    /// In step with `table`: the index never passes the row count, and the
    /// end flag holds exactly at the row count.
    pub open spec fn valid_for(&self, table: &Table) -> bool {
        &&& self.row_num <= table.num_rows
        &&& (self.end_of_table <==> self.row_num >= table.num_rows)
    }

    /// A cursor at the table's first row; at the end already when the
    /// table is empty.
    pub fn table_start(table: &Table) -> (c: Cursor)
        ensures
            c.valid_for(table),
            c.row_num == 0,
            c.end_of_table <==> table.num_rows == 0,
    {
        let end_of_table = table.num_rows == 0;
        Cursor { row_num: 0, end_of_table }
    }

    /// Moves one row forward; reaches the end exactly when the new index
    /// hits the row count.
    pub fn advance(&mut self, table: &Table)
        requires
            old(self).valid_for(table),
            !old(self).end_of_table,
        ensures
            final(self).valid_for(table),
            final(self).row_num == old(self).row_num + 1,
            final(self).end_of_table <==> final(self).row_num >= table.num_rows,
    {
        self.row_num = self.row_num + 1;
        if self.row_num >= table.num_rows {
            self.end_of_table = true;
        }
    }

    /// The row under the cursor: `Done(None)` at the end of the table,
    /// otherwise exactly what [`Table::row_at`] gives for the current
    /// index.
    pub fn value(&self, table: &Table) -> (r: Result<Fetch<Option<Row>>, StoreError>)
        requires
            table.wf(),
            self.valid_for(table),
        ensures
            match r {
                Ok(Fetch::Done(None)) => self.end_of_table,
                Ok(Fetch::Done(Some(row))) => !self.end_of_table && table.pager.spec_resident(
                    table.spec_page_of(self.row_num as int),
                ) && table.spec_stored_row(self.row_num as int) == Some(row@),
                Ok(Fetch::Load(req)) => !self.end_of_table && !table.pager.spec_resident(
                    table.spec_page_of(self.row_num as int),
                ) && req.page == table.spec_page_of(self.row_num as int) && req.offset == req.page
                    * PAGE_SIZE && req.len == crate::pager::spec_load_len(
                    table.pager.file_length as int,
                    req.page as int,
                ) && req.len > 0,
                Err(e) => e == StoreError::CorruptRow && !self.end_of_table
                    && table.pager.spec_resident(table.spec_page_of(self.row_num as int))
                    && table.spec_stored_row(self.row_num as int) is None,
            },
    {
        if self.end_of_table {
            Ok(Fetch::Done(None))
        } else {
            table.row_at(self.row_num)
        }
    }
}

/// The rows of `rows` that pass `clause`, in order.
pub open spec fn spec_filter_rows(rows: Seq<RowModel>, clause: Option<WhereClause>) -> Seq<
    RowModel,
>
    decreases rows.len(),
{
    if rows.len() == 0 {
        Seq::empty()
    } else {
        (if spec_matches_where(rows[0], clause) {
            seq![rows[0]]
        } else {
            Seq::empty()
        }) + spec_filter_rows(rows.drop_first(), clause)
    }
}

proof fn lemma_filter_rows_push(rows: Seq<RowModel>, clause: Option<WhereClause>, x: RowModel)
    ensures
        spec_filter_rows(rows.push(x), clause) == spec_filter_rows(rows, clause) + (
        if spec_matches_where(x, clause) {
            seq![x]
        } else {
            Seq::empty()
        }),
    decreases rows.len(),
{
    if rows.len() == 0 {
        assert(rows.push(x)[0] == x);
        assert(rows.push(x).drop_first() =~= Seq::<RowModel>::empty());
        assert(spec_filter_rows(rows, clause) == Seq::<RowModel>::empty());
        assert(spec_filter_rows(rows.push(x).drop_first(), clause) == Seq::<RowModel>::empty());
        if spec_matches_where(x, clause) {
            assert(spec_filter_rows(rows.push(x), clause) =~= Seq::<RowModel>::empty() + seq![x]);
            assert(seq![x] + Seq::<RowModel>::empty() =~= Seq::<RowModel>::empty() + seq![x]);
        } else {
            assert(spec_filter_rows(rows.push(x), clause) =~= Seq::<RowModel>::empty()
                + Seq::<RowModel>::empty());
        }
    } else {
        assert(rows.push(x)[0] == rows[0]);
        assert(rows.push(x).drop_first() =~= rows.drop_first().push(x));
        lemma_filter_rows_push(rows.drop_first(), clause, x);
        assert(spec_filter_rows(rows.push(x), clause) =~= spec_filter_rows(rows, clause) + (
        if spec_matches_where(x, clause) {
            seq![x]
        } else {
            Seq::<RowModel>::empty()
        }));
    }
}

impl Table {
    /// Walks a cursor from the first row to the end and collects every
    /// decoded row, in row order.
    ///
    /// `Done(rows)` holds one row per stored row: every page holding rows
    /// is resident and every slot decodes to the row at its index. If some
    /// row's page is not resident, returns its read instead, changing
    /// nothing; hand the bytes to [`Table::install_page`] and call again.
    /// Fails with [`StoreError::CorruptRow`] when some stored slot is
    /// inconsistent.
    pub fn scan(&self) -> (r: Result<Fetch<Vec<Row>>, StoreError>)
        requires
            self.wf(),
        ensures
            match r {
                Ok(Fetch::Done(rows)) => {
                    &&& rows@.len() == self.num_rows
                    &&& forall|i: int|
                        0 <= i < self.num_rows ==> self.pager.spec_resident(
                            #[trigger] self.spec_page_of(i),
                        )
                    &&& forall|i: int|
                        0 <= i < rows@.len() ==> self.spec_stored_row(i) == Some(
                            (#[trigger] rows@[i])@,
                        )
                },
                Ok(Fetch::Load(req)) => exists|i: int|
                    0 <= i < self.num_rows && !self.pager.spec_resident(
                        #[trigger] self.spec_page_of(i),
                    ) && req.page == self.spec_page_of(i) && req.offset == req.page * PAGE_SIZE
                        && req.len == crate::pager::spec_load_len(
                        self.pager.file_length as int,
                        req.page as int,
                    ) && req.len > 0,
                Err(e) => e == StoreError::CorruptRow && exists|i: int|
                    0 <= i < self.num_rows && self.pager.spec_resident(
                        #[trigger] self.spec_page_of(i),
                    ) && self.spec_stored_row(i) is None,
            },
    {
        let mut rows: Vec<Row> = Vec::new();
        let mut cursor = Cursor::table_start(self);
        while !cursor.end_of_table
            invariant
                self.wf(),
                cursor.valid_for(self),
                rows@.len() == cursor.row_num,
                forall|i: int|
                    0 <= i < cursor.row_num ==> self.pager.spec_resident(
                        #[trigger] self.spec_page_of(i),
                    ),
                forall|i: int|
                    0 <= i < rows@.len() ==> self.spec_stored_row(i) == Some(
                        (#[trigger] rows@[i])@,
                    ),
            decreases self.num_rows - cursor.row_num,
        {
            match cursor.value(self) {
                Ok(Fetch::Done(Some(row))) => {
                    rows.push(row);
                },
                Ok(Fetch::Done(None)) => {
                    proof {
                        assert(false);
                    }
                },
                Ok(Fetch::Load(req)) => {
                    proof {
                        assert(0 <= cursor.row_num < self.num_rows && !self.pager.spec_resident(
                            self.spec_page_of(cursor.row_num as int),
                        ));
                    }
                    return Ok(Fetch::Load(req));
                },
                Err(e) => {
                    proof {
                        assert(0 <= cursor.row_num < self.num_rows && self.pager.spec_resident(
                            self.spec_page_of(cursor.row_num as int),
                        ) && self.spec_stored_row(cursor.row_num as int) is None);
                    }
                    return Err(e);
                },
            }
            cursor.advance(self);
        }
        Ok(Fetch::Done(rows))
    }

    /// A full scan with the optional filter applied row by row after
    /// decoding: exactly the stored rows that pass `where_clause`, in row
    /// order. Needs pages and reports corruption as [`Table::scan`] does.
    pub fn select(&self, where_clause: &Option<WhereClause>) -> (r: Result<
        Fetch<Vec<Row>>,
        StoreError,
    >)
        requires
            self.wf(),
        ensures
            match r {
                Ok(Fetch::Done(rows)) => exists|all: Seq<RowModel>|
                    {
                        &&& all.len() == self.num_rows
                        &&& forall|i: int|
                            0 <= i < all.len() ==> self.spec_stored_row(i) == Some(
                                #[trigger] all[i],
                            )
                        &&& rows@.map_values(|row: Row| row@) == spec_filter_rows(
                            all,
                            *where_clause,
                        )
                    },
                Ok(Fetch::Load(req)) => exists|i: int|
                    0 <= i < self.num_rows && !self.pager.spec_resident(
                        #[trigger] self.spec_page_of(i),
                    ) && req.page == self.spec_page_of(i) && req.offset == req.page * PAGE_SIZE
                        && req.len == crate::pager::spec_load_len(
                        self.pager.file_length as int,
                        req.page as int,
                    ) && req.len > 0,
                Err(e) => e == StoreError::CorruptRow && exists|i: int|
                    0 <= i < self.num_rows && self.pager.spec_resident(
                        #[trigger] self.spec_page_of(i),
                    ) && self.spec_stored_row(i) is None,
            },
    {
        let all = match self.scan() {
            Ok(Fetch::Done(rows)) => rows,
            Ok(Fetch::Load(req)) => {
                return Ok(Fetch::Load(req));
            },
            Err(e) => {
                return Err(e);
            },
        };
        let ghost all_models = all@.map_values(|row: Row| row@);
        let mut picked: Vec<Row> = Vec::new();
        let mut i: usize = 0;
        proof {
            assert(all_models.take(0) =~= Seq::<RowModel>::empty());
        }
        while i < all.len()
            invariant
                0 <= i <= all.len(),
                all_models == all@.map_values(|row: Row| row@),
                all_models.len() == all@.len(),
                picked@.map_values(|row: Row| row@) == spec_filter_rows(
                    all_models.take(i as int),
                    *where_clause,
                ),
            decreases all.len() - i,
        {
            proof {
                assert(all_models.take(i as int).push(all_models[i as int]) =~= all_models.take(
                    i + 1 as int,
                ));
                lemma_filter_rows_push(
                    all_models.take(i as int),
                    *where_clause,
                    all_models[i as int],
                );
            }
            if matches_where_clause(&all[i], where_clause) {
                picked.push(all[i].duplicate());
                proof {
                    assert(picked@.map_values(|row: Row| row@) =~= spec_filter_rows(
                        all_models.take(i + 1 as int),
                        *where_clause,
                    ));
                }
            } else {
                proof {
                    assert(picked@.map_values(|row: Row| row@) =~= spec_filter_rows(
                        all_models.take(i + 1 as int),
                        *where_clause,
                    ));
                }
            }
            i += 1;
        }
        proof {
            assert(all_models.take(all@.len() as int) =~= all_models);
        }
        Ok(Fetch::Done(picked))
    }
}

} // verus!
