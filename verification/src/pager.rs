//! The page cache: page-indexed in-memory buffers over a backing file.
//!
//! The pager never touches the file itself. It describes the single read a
//! page load needs as a [`ReadRequest`] and each flush as a [`WriteRequest`];
//! the surrounding program performs them against the real file. A page
//! beyond the current end of file needs no read and is created
//! zero-initialized; a page overlapping the end of file loads only the bytes
//! the file holds, and its buffer grows in memory as rows are written into
//! it.

use vstd::prelude::*;
use vstd::slice::slice_subrange;

use crate::codec::zero_bytes;
use crate::errors::StoreError;
use crate::{PAGE_SIZE, TABLE_MAX_PAGES};

verus! {

/// One read the caller must perform: `len` bytes at byte `offset` of the
/// file, destined for page `page`. `len` never exceeds the file length at
/// `offset`, nor a page.
#[derive(Clone, Copy, Debug)]
pub struct ReadRequest {
    pub page: usize,
    pub offset: usize,
    pub len: usize,
}

/// One write the caller must perform: `bytes` at byte `offset` of the file,
/// extending the file if the write ends past its current end.
#[derive(Debug)]
pub struct WriteRequest {
    pub offset: usize,
    pub bytes: Vec<u8>,
}

/// Either a finished result, or the page read that must happen first.
/// After performing the read and handing the bytes to
/// [`Pager::install_page`], the caller repeats the operation.
#[derive(Debug)]
pub enum Fetch<T> {
    Done(T),
    Load(ReadRequest),
}

/// Number of bytes a load of `page` must read from a file of length
/// `file_length`: a full page inside the file, the remaining tail at its
/// edge, nothing beyond it.
pub open spec fn spec_load_len(file_length: int, page: int) -> int {
    if page * PAGE_SIZE + PAGE_SIZE <= file_length {
        PAGE_SIZE as int
    } else if page * PAGE_SIZE < file_length {
        file_length - page * PAGE_SIZE
    } else {
        0
    }
}

/// A buffer after writing `data` at `offset`: the buffer grows (zero-filled
/// up to `offset` if it was shorter) just enough to hold the write; bytes
/// outside the written range keep their old values.
pub open spec fn spec_store_slot(buf: Seq<u8>, offset: int, data: Seq<u8>) -> Seq<u8> {
    let n = if offset + data.len() > buf.len() {
        offset + data.len()
    } else {
        buf.len() as int
    };
    Seq::new(
        n as nat,
        |k: int|
            if offset <= k < offset + data.len() {
                data[k - offset]
            } else if k < buf.len() {
                buf[k]
            } else {
                0u8
            },
    )
}

/// A buffer padded with zero bytes up to `size` (unchanged if already that
/// long).
pub open spec fn spec_pad(buf: Seq<u8>, size: int) -> Seq<u8> {
    if buf.len() >= size {
        buf
    } else {
        buf + zero_bytes(size - buf.len())
    }
}

/// The page cache: one optional buffer per page index, plus the length the
/// backing file currently has (as far as this pager knows — it grows with
/// each flush that writes past the end).
pub struct Pager {
    pub pages: Vec<Option<Vec<u8>>>,
    pub file_length: usize,
}

impl Pager {
    /// The buffer of page `p`, if resident.
    pub open spec fn spec_page(&self, p: int) -> Option<Seq<u8>> {
        match self.pages@[p] {
            Some(b) => Some(b@),
            None => None,
        }
    }

    /// True when page `p` is resident in memory.
    pub open spec fn spec_resident(&self, p: int) -> bool {
        0 <= p < self.pages@.len() && self.pages@[p] is Some
    }

    /// Well-formed: one slot per allowed page, every resident buffer at
    /// most a page long.
    pub open spec fn wf(&self) -> bool {
        &&& self.pages@.len() == TABLE_MAX_PAGES
        &&& forall|p: int|
            0 <= p < TABLE_MAX_PAGES ==> ((#[trigger] self.pages@[p]) matches Some(b) ==> b@.len()
                <= PAGE_SIZE)
    }

    /// A fresh pager over a file of the given length: nothing resident yet.
    pub fn new(file_length: usize) -> (r: Pager)
        ensures
            r.wf(),
            r.file_length == file_length,
            forall|p: int| 0 <= p < TABLE_MAX_PAGES ==> !r.spec_resident(p),
    {
        let mut pages: Vec<Option<Vec<u8>>> = Vec::new();
        let mut i: usize = 0;
        while i < TABLE_MAX_PAGES
            invariant
                0 <= i <= TABLE_MAX_PAGES,
                pages@.len() == i,
                forall|p: int| 0 <= p < i ==> pages@[p] is None,
            decreases TABLE_MAX_PAGES - i,
        {
            pages.push(None);
            i += 1;
        }
        Pager { pages, file_length }
    }

    /// True when page `page` is resident.
    pub fn is_resident(&self, page: usize) -> (r: bool)
        requires
            self.wf(),
            page < TABLE_MAX_PAGES,
        ensures
            r == self.spec_resident(page as int),
    {
        match &self.pages[page] {
            Some(_) => true,
            None => false,
        }
    }

    /// Makes page `page` ready for access, or says which read would.
    ///
    /// Fails with [`StoreError::PageIndexOutOfBounds`] exactly when `page`
    /// is at or beyond the page capacity. Returns `Ok(None)` when the page
    /// is already resident, or lies entirely beyond the end of the file and
    /// was created zero-initialized. Returns `Ok(Some(req))`, changing
    /// nothing, when the page overlaps the file and must first be read;
    /// hand the bytes read to [`Pager::install_page`].
    pub fn prepare_page(&mut self, page: usize) -> (r: Result<Option<ReadRequest>, StoreError>)
        requires
            old(self).wf(),
        ensures
            final(self).wf(),
            final(self).file_length == old(self).file_length,
            match r {
                Err(e) => e == StoreError::PageIndexOutOfBounds && page >= TABLE_MAX_PAGES
                    && *final(self) == *old(self),
                Ok(None) => {
                    &&& page < TABLE_MAX_PAGES
                    &&& final(self).spec_resident(page as int)
                    &&& if old(self).spec_resident(page as int) {
                        *final(self) == *old(self)
                    } else {
                        &&& page * PAGE_SIZE >= old(self).file_length
                        &&& final(self).spec_page(page as int) == Some(zero_bytes(PAGE_SIZE as int))
                        &&& forall|p: int|
                            0 <= p < TABLE_MAX_PAGES && p != page ==> final(self).spec_page(p)
                                == old(self).spec_page(p)
                    }
                },
                Ok(Some(req)) => {
                    &&& page < TABLE_MAX_PAGES
                    &&& !old(self).spec_resident(page as int)
                    &&& (page * PAGE_SIZE) < old(self).file_length
                    &&& *final(self) == *old(self)
                    &&& req.page == page
                    &&& req.offset == page * PAGE_SIZE
                    &&& req.len == spec_load_len(old(self).file_length as int, page as int)
                    &&& req.len > 0
                },
            },
    {
        if page >= TABLE_MAX_PAGES {
            return Err(StoreError::PageIndexOutOfBounds);
        }
        let resident = match &self.pages[page] {
            Some(_) => true,
            None => false,
        };
        if resident {
            return Ok(None);
        }
        let offset: usize = page * PAGE_SIZE;
        if offset >= self.file_length {
            let mut buf: Vec<u8> = Vec::new();
            let mut k: usize = 0;
            while k < PAGE_SIZE
                invariant
                    0 <= k <= PAGE_SIZE,
                    buf@ == zero_bytes(k as int),
                decreases PAGE_SIZE - k,
            {
                buf.push(0u8);
                proof {
                    assert(zero_bytes(k as int).push(0u8) =~= zero_bytes(k + 1 as int));
                }
                k += 1;
            }
            self.pages.set(page, Some(buf));
            return Ok(None);
        }
        let len = if self.file_length - offset >= PAGE_SIZE {
            PAGE_SIZE
        } else {
            self.file_length - offset
        };
        Ok(Some(ReadRequest { page, offset, len }))
    }

    /// Installs the bytes a [`ReadRequest`] asked for. Accepts (and returns
    /// true) exactly when `page` is a valid, non-resident page overlapping
    /// the file and `bytes` is exactly the requested length; otherwise it
    /// changes nothing.
    pub fn install_page(&mut self, page: usize, bytes: Vec<u8>) -> (ok: bool)
        requires
            old(self).wf(),
        ensures
            final(self).wf(),
            final(self).file_length == old(self).file_length,
            ok <==> {
                &&& page < TABLE_MAX_PAGES
                &&& !old(self).spec_resident(page as int)
                &&& (page * PAGE_SIZE) < old(self).file_length
                &&& bytes@.len() == spec_load_len(old(self).file_length as int, page as int)
            },
            ok ==> final(self).spec_page(page as int) == Some(bytes@) && forall|p: int|
                0 <= p < TABLE_MAX_PAGES && p != page ==> final(self).spec_page(p) == old(self).spec_page(p),
            !ok ==> *final(self) == *old(self),
    {
        if page >= TABLE_MAX_PAGES {
            return false;
        }
        let resident = match &self.pages[page] {
            Some(_) => true,
            None => false,
        };
        if resident {
            return false;
        }
        let offset: usize = page * PAGE_SIZE;
        if offset >= self.file_length {
            return false;
        }
        let expected = if self.file_length - offset >= PAGE_SIZE {
            PAGE_SIZE
        } else {
            self.file_length - offset
        };
        if bytes.len() != expected {
            return false;
        }
        self.pages.set(page, Some(bytes));
        true
    }

    /// The resident buffer of page `page`.
    pub fn page_ref(&self, page: usize) -> (r: &Vec<u8>)
        requires
            self.wf(),
            page < TABLE_MAX_PAGES,
            self.spec_resident(page as int),
        ensures
            Some(r@) == self.spec_page(page as int),
            r@.len() <= PAGE_SIZE,
    {
        match &self.pages[page] {
            Some(b) => b,
            None => {
                proof {
                    assert(false);
                }
                unreached()
            },
        }
    }

    /// Writes `data` into the resident buffer of `page` at `offset`,
    /// growing the buffer (zero-filled) as needed; no byte outside the
    /// written range changes, and no other page changes.
    pub fn write_slot(&mut self, page: usize, offset: usize, data: &[u8])
        requires
            old(self).wf(),
            page < TABLE_MAX_PAGES,
            old(self).spec_resident(page as int),
            offset + data@.len() <= PAGE_SIZE,
        ensures
            final(self).wf(),
            final(self).file_length == old(self).file_length,
            final(self).spec_resident(page as int),
            final(self).spec_page(page as int) == Some(
                spec_store_slot(old(self).spec_page(page as int)->0, offset as int, data@),
            ),
            forall|p: int|
                0 <= p < TABLE_MAX_PAGES && p != page ==> final(self).spec_page(p) == old(self).spec_page(p),
    {
        let ghost old_buf = old(self).spec_page(page as int)->0;
        let mut slot_opt: Option<Vec<u8>> = None;
        self.pages.set_and_swap(page, &mut slot_opt);
        let mut buf: Vec<u8> = match slot_opt {
            Some(b) => b,
            None => {
                proof {
                    assert(false);
                }
                unreached()
            },
        };
        let end: usize = offset + data.len();
        while buf.len() < end
            invariant
                end == offset + data@.len() <= PAGE_SIZE,
                buf@.len() <= if end > old_buf.len() {
                    end as int
                } else {
                    old_buf.len() as int
                },
                buf@ == spec_pad(old_buf, buf@.len() as int),
            decreases end - buf.len(),
        {
            let ghost before = buf@;
            buf.push(0u8);
            proof {
                assert(buf@ =~= spec_pad(old_buf, buf@.len() as int));
            }
        }
        let mut k: usize = 0;
        let ghost grown = buf@;
        while k < data.len()
            invariant
                0 <= k <= data@.len(),
                end == offset + data@.len(),
                end <= buf@.len(),
                buf@.len() == grown.len(),
                forall|j: int| offset <= j < offset + k ==> #[trigger] buf@[j] == data@[j - offset],
                forall|j: int|
                    0 <= j < buf@.len() && !(offset <= j < offset + k) ==> #[trigger] buf@[j]
                        == grown[j],
            decreases data@.len() - k,
        {
            let b = *vstd::slice::slice_index_get(data, k);
            buf.set(offset + k, b);
            k += 1;
        }
        proof {
            assert(buf@ =~= spec_store_slot(old_buf, offset as int, data@));
        }
        self.pages.set(page, Some(buf));
    }

    /// Pads the resident buffer of `page` with zero bytes up to `size`,
    /// then describes the flush of its first `size` bytes at the page's
    /// file offset, recording the file growth the write causes. Residency
    /// and every other page are untouched.
    pub fn pad_and_flush(&mut self, page: usize, size: usize) -> (w: WriteRequest)
        requires
            old(self).wf(),
            page < TABLE_MAX_PAGES,
            old(self).spec_resident(page as int),
            size <= PAGE_SIZE,
        ensures
            final(self).wf(),
            final(self).spec_page(page as int) == Some(
                spec_pad(old(self).spec_page(page as int)->0, size as int),
            ),
            forall|p: int|
                0 <= p < TABLE_MAX_PAGES && p != page ==> final(self).spec_page(p) == old(self).spec_page(p),
            forall|p: int|
                0 <= p < TABLE_MAX_PAGES ==> ((#[trigger] final(self).spec_resident(p)) <==> old(
                    self,
                ).spec_resident(p)),
            w.offset == page * PAGE_SIZE,
            w.bytes@ == spec_pad(old(self).spec_page(page as int)->0, size as int).subrange(
                0,
                size as int,
            ),
            final(self).file_length == (if page * PAGE_SIZE + size > old(self).file_length {
                (page * PAGE_SIZE + size) as int
            } else {
                old(self).file_length as int
            }),
    {
        let ghost old_buf = old(self).spec_page(page as int)->0;
        let mut slot_opt: Option<Vec<u8>> = None;
        self.pages.set_and_swap(page, &mut slot_opt);
        let mut buf: Vec<u8> = match slot_opt {
            Some(b) => b,
            None => {
                proof {
                    assert(false);
                }
                unreached()
            },
        };
        while buf.len() < size
            invariant
                size <= PAGE_SIZE,
                buf@.len() <= if size > old_buf.len() {
                    size as int
                } else {
                    old_buf.len() as int
                },
                buf@ == spec_pad(old_buf, buf@.len() as int),
            decreases size - buf.len(),
        {
            buf.push(0u8);
            proof {
                assert(buf@ =~= spec_pad(old_buf, buf@.len() as int));
            }
        }
        proof {
            assert(buf@ =~= spec_pad(old_buf, size as int));
        }
        let prefix = slice_subrange(buf.as_slice(), 0, size);
        let bytes = vstd::slice::slice_to_vec(prefix);
        self.pages.set(page, Some(buf));
        let offset: usize = page * PAGE_SIZE;
        let end: usize = offset + size;
        if end > self.file_length {
            self.file_length = end;
        }
        WriteRequest { offset, bytes }
    }

    /// Describes the flush of the first `size` bytes of page `page`, and
    /// records the file growth it causes. Returns `None`, a no-op, when the
    /// page is not resident: a never-touched page has nothing to write.
    pub fn flush(&mut self, page: usize, size: usize) -> (r: Option<WriteRequest>)
        requires
            old(self).wf(),
            page < TABLE_MAX_PAGES,
            old(self).spec_resident(page as int) ==> size <= old(self).spec_page(
                page as int,
            )->0.len(),
        ensures
            final(self).wf(),
            final(self).pages == old(self).pages,
            match r {
                None => !old(self).spec_resident(page as int) && *final(self) == *old(self),
                Some(w) => {
                    &&& old(self).spec_resident(page as int)
                    &&& w.offset == page * PAGE_SIZE
                    &&& w.bytes@ == old(self).spec_page(page as int)->0.subrange(0, size as int)
                    &&& final(self).file_length == if page * PAGE_SIZE + size > old(self).file_length {
                        (page * PAGE_SIZE + size) as int
                    } else {
                        old(self).file_length as int
                    }
                },
            },
    {
        let resident = match &self.pages[page] {
            Some(_) => true,
            None => false,
        };
        if !resident {
            return None;
        }
        let buf = self.page_ref(page);
        let prefix = slice_subrange(buf.as_slice(), 0, size);
        let bytes = vstd::slice::slice_to_vec(prefix);
        let offset: usize = page * PAGE_SIZE;
        let end: usize = offset + size;
        if end > self.file_length {
            self.file_length = end;
        }
        Some(WriteRequest { offset, bytes })
    }
}

} // verus!
