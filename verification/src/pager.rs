//! The page cache.  The pager holds an in-memory image of the backing
//! file, taken when the store was opened, and a growable cache of
//! pages.  A page is materialized at most once: requests beyond the
//! cached range load every missing page in ascending order, either by
//! copying it out of the file image or, past the end of the file, as an
//! all-zero page.  Closing produces the new file image: every cached
//! page at its page-aligned offset, and the untouched tail of the old
//! image after them.

use vstd::prelude::*;
use vstd::arithmetic::div_mod::lemma_fundamental_div_mod_converse;
use crate::row::ROW_SIZE;
use crate::table::{Page, PAGE_SIZE, TABLE_MAX_PAGES};

verus! {

/// The all-zero page, the content of any page index past the end of
/// the file.
pub open spec fn spec_zero_page() -> Seq<u8> {
    Seq::new(PAGE_SIZE as nat, |i: int| 0u8)
}

/// The content of page `idx` of a file image: its `PAGE_SIZE` bytes at
/// offset `idx * PAGE_SIZE` when the file reaches that far, the
/// all-zero page otherwise.
pub open spec fn spec_file_page(file: Seq<u8>, idx: int) -> Seq<u8> {
    if 0 <= idx && (idx + 1) * (PAGE_SIZE as int) <= file.len() {
        file.subrange(idx * (PAGE_SIZE as int), (idx + 1) * (PAGE_SIZE as int))
    } else {
        spec_zero_page()
    }
}

/// Bytes `b` written into `s` at offset `off`, the rest unchanged.
pub open spec fn spec_splice(s: Seq<u8>, off: int, b: Seq<u8>) -> Seq<u8> {
    s.take(off) + b + s.skip(off + b.len())
}

pub struct Pager {
    pub file: Vec<u8>,
    pub pages: Vec<Page>,
}

impl Pager {
    /// The file image is whole pages only and fits the page budget;
    /// every cached page has its full size.  One page beyond the
    /// budget is admitted, for scans that read the rows a full file
    /// carries past its last whole page.
    pub open spec fn wf(self) -> bool {
        &&& self.file@.len() as int % (PAGE_SIZE as int) == 0
        &&& self.file@.len() <= TABLE_MAX_PAGES * PAGE_SIZE
        &&& self.pages@.len() <= TABLE_MAX_PAGES + 1
        &&& forall|i: int|
            0 <= i < self.pages@.len() ==> (#[trigger] self.pages@[i]).data@.len() == PAGE_SIZE
    }

    /// The current content of page `idx`: the cached page when it is
    /// loaded, the file image's page otherwise.
    pub open spec fn page_view(self, idx: int) -> Seq<u8> {
        if 0 <= idx < self.pages@.len() {
            self.pages@[idx].data@
        } else {
            spec_file_page(self.file@, idx)
        }
    }

    /// How many whole pages the file image holds.
    pub open spec fn spec_file_pages(self) -> int {
        self.file@.len() as int / (PAGE_SIZE as int)
    }

    /// How many pages closing writes out: every cached page, and the
    /// file image's tail beyond them.
    pub open spec fn spec_total_pages(self) -> int {
        if self.pages@.len() as int >= self.spec_file_pages() {
            self.pages@.len() as int
        } else {
            self.spec_file_pages()
        }
    }

    /// Opens the pager on a file image.  No pages are loaded yet.
    pub fn new(file: Vec<u8>) -> (p: Pager)
        requires
            file@.len() as int % (PAGE_SIZE as int) == 0,
            file@.len() <= TABLE_MAX_PAGES * PAGE_SIZE,
        ensures
            p.wf(),
            p.file@ == file@,
            p.pages@.len() == 0,
    {
        Pager { file, pages: Vec::new() }
    }

    /// How many whole rows the file image holds; the row count is
    /// recovered from the file length alone when a table is opened.
    pub fn num_rows(&self) -> (n: usize)
        ensures
            n as int == self.file@.len() as int / (ROW_SIZE as int),
    {
        self.file.len() / ROW_SIZE
    }

    /// Materializes the next missing page, at index `page_num`: a copy
    /// of the file image's page when the file reaches that far, the
    /// all-zero page otherwise.
    pub fn load_page(&mut self, page_num: usize)
        requires
            old(self).wf(),
            page_num as int == old(self).pages@.len(),
            page_num <= TABLE_MAX_PAGES,
        ensures
            final(self).wf(),
            final(self).file@ == old(self).file@,
            final(self).pages@.len() == old(self).pages@.len() + 1,
            forall|i: int|
                0 <= i < old(self).pages@.len() ==> final(self).pages@[i] == old(
                    self,
                ).pages@[i],
            final(self).pages@[page_num as int].data@ == spec_file_page(
                old(self).file@,
                page_num as int,
            ),
            forall|i: int| #[trigger] final(self).page_view(i) == old(self).page_view(i),
    {
        let page_offset = page_num * PAGE_SIZE;

        if page_offset >= self.file.len() {
            let data = zero_page_data();
            self.pages.push(Page { data });
        } else {
            proof {
                let l = self.file@.len() as int;
                let p = page_num as int;
                if l < (p + 1) * (PAGE_SIZE as int) {
                    lemma_fundamental_div_mod_converse(
                        l,
                        PAGE_SIZE as int,
                        p,
                        l - p * (PAGE_SIZE as int),
                    );
                }
            }
            let mut data: Vec<u8> = Vec::new();
            let mut i: usize = 0;
            while i < PAGE_SIZE
                invariant
                    i <= PAGE_SIZE,
                    data@.len() == i,
                    page_offset == page_num * PAGE_SIZE,
                    page_offset + PAGE_SIZE <= self.file@.len(),
                    forall|j: int| 0 <= j < i ==> data@[j] == self.file@[page_offset + j],
                decreases PAGE_SIZE - i,
            {
                data.push(self.file[page_offset + i]);
                i += 1;
            }
            proof {
                assert(data@ =~= spec_file_page(self.file@, page_num as int));
            }
            self.pages.push(Page { data });
        }

        proof {
            assert forall|i: int| #[trigger] self.page_view(i) == old(self).page_view(i) by {
                if i == page_num as int {
                    assert(old(self).page_view(i) == spec_file_page(old(self).file@, i));
                }
            }
        }
    }

    /// Loads every missing page up to and including `page_idx`, in
    /// ascending order, then hands out the cached page.
    pub fn get_page(&mut self, page_idx: usize) -> (page: &Page)
        requires
            old(self).wf(),
            page_idx <= TABLE_MAX_PAGES,
        ensures
            final(self).wf(),
            final(self).file@ == old(self).file@,
            final(self).pages@.len() == (if old(self).pages@.len() > page_idx as int {
                old(self).pages@.len() as int
            } else {
                page_idx + 1
            }),
            forall|i: int| #[trigger] final(self).page_view(i) == old(self).page_view(i),
            page.data@ == old(self).page_view(page_idx as int),
            page.data@.len() == PAGE_SIZE,
    {
        while page_idx >= self.pages.len()
            invariant
                self.wf(),
                page_idx <= TABLE_MAX_PAGES,
                self.file@ == old(self).file@,
                old(self).pages@.len() <= self.pages@.len(),
                self.pages@.len() <= page_idx + 1 || self.pages@.len() == old(
                    self,
                ).pages@.len(),
                forall|i: int| #[trigger] self.page_view(i) == old(self).page_view(i),
            decreases page_idx + 1 - self.pages@.len(),
        {
            let n = self.pages.len();
            self.load_page(n);
        }
        proof {
            assert(self.page_view(page_idx as int) == old(self).page_view(page_idx as int));
        }
        &self.pages[page_idx]
    }

    /// Writes `bytes` into page `page_idx` at byte offset `offset`,
    /// loading the page first if it is not cached yet.  Only that byte
    /// range of that page changes.
    pub fn write_in_page(&mut self, page_idx: usize, offset: usize, bytes: &Vec<u8>)
        requires
            old(self).wf(),
            page_idx <= TABLE_MAX_PAGES,
            offset + bytes@.len() <= PAGE_SIZE,
        ensures
            final(self).wf(),
            final(self).file@ == old(self).file@,
            final(self).pages@.len() == (if old(self).pages@.len() > page_idx as int {
                old(self).pages@.len() as int
            } else {
                page_idx + 1
            }),
            forall|i: int|
                i != page_idx as int ==> #[trigger] final(self).page_view(i) == old(
                    self,
                ).page_view(i),
            final(self).page_view(page_idx as int) == spec_splice(
                old(self).page_view(page_idx as int),
                offset as int,
                bytes@,
            ),
    {
        let _ = self.get_page(page_idx);
        let ghost mid = *self;

        let mut i: usize = 0;
        while i < bytes.len()
            invariant
                i <= bytes@.len(),
                offset + bytes@.len() <= PAGE_SIZE,
                page_idx < self.pages@.len(),
                self.wf(),
                self.file@ == mid.file@,
                self.pages@.len() == mid.pages@.len(),
                forall|j: int|
                    0 <= j < self.pages@.len() && j != page_idx as int
                        ==> #[trigger] self.pages@[j] == mid.pages@[j],
                forall|k: int|
                    0 <= k < PAGE_SIZE && !(offset <= k < offset + i)
                        ==> #[trigger] self.pages@[page_idx as int].data@[k]
                        == mid.pages@[page_idx as int].data@[k],
                forall|k: int|
                    offset <= k < offset + i ==> #[trigger] self.pages@[page_idx
                        as int].data@[k] == bytes@[k - offset],
            decreases bytes@.len() - i,
        {
            let b = bytes[i];
            let page = &mut self.pages[page_idx];
            page.data[offset + i] = b;
            i += 1;
        }

        proof {
            assert(self.page_view(page_idx as int) =~= spec_splice(
                mid.page_view(page_idx as int),
                offset as int,
                bytes@,
            ));
            assert forall|j: int| j != page_idx as int implies #[trigger] self.page_view(j)
                == old(self).page_view(j) by {
                assert(mid.page_view(j) == old(self).page_view(j));
            }
        }
    }

    /// Builds the file image that closing writes back: every page up
    /// to the larger of the cached range and the old file's page
    /// count, in index order, each at its page-aligned offset.
    pub fn close(&self) -> (out: Vec<u8>)
        requires
            self.wf(),
        ensures
            out@ == spec_close_file(*self),
            out@.len() == self.spec_total_pages() * (PAGE_SIZE as int),
            out@.len() as int % (PAGE_SIZE as int) == 0,
    {
        let file_pages = self.file.len() / PAGE_SIZE;
        let total = if self.pages.len() >= file_pages {
            self.pages.len()
        } else {
            file_pages
        };
        proof {
            assert(total as int == self.spec_total_pages());
            vstd::arithmetic::div_mod::lemma_fundamental_div_mod(
                self.file@.len() as int,
                PAGE_SIZE as int,
            );
        }

        let mut out: Vec<u8> = Vec::new();
        let mut i: usize = 0;
        while i < total
            invariant
                i <= total,
                total as int == self.spec_total_pages(),
                total <= TABLE_MAX_PAGES + 1,
                self.wf(),
                self.file@.len() as int == (PAGE_SIZE as int) * (self.file@.len() as int / (
                PAGE_SIZE as int)),
                out@.len() == i * PAGE_SIZE,
                forall|k: int|
                    0 <= k < out@.len() ==> #[trigger] out@[k] == self.page_view(
                        k / (PAGE_SIZE as int),
                    )[k % (PAGE_SIZE as int)],
            decreases total - i,
        {
            let mut j: usize = 0;
            while j < PAGE_SIZE
                invariant
                    j <= PAGE_SIZE,
                    i < total,
                    total as int == self.spec_total_pages(),
                    total <= TABLE_MAX_PAGES + 1,
                    self.wf(),
                    self.file@.len() as int == (PAGE_SIZE as int) * (self.file@.len() as int / (
                    PAGE_SIZE as int)),
                    out@.len() == i * PAGE_SIZE + j,
                    forall|k: int|
                        0 <= k < out@.len() ==> #[trigger] out@[k] == self.page_view(
                            k / (PAGE_SIZE as int),
                        )[k % (PAGE_SIZE as int)],
                decreases PAGE_SIZE - j,
            {
                let b = if i < self.pages.len() {
                    let page = &self.pages[i];
                    page.data[j]
                } else {
                    proof {
                        assert(i + 1 <= self.spec_file_pages());
                        assert((i + 1) * (PAGE_SIZE as int) <= self.spec_file_pages() * (PAGE_SIZE
                            as int)) by (nonlinear_arith)
                            requires
                                i + 1 <= self.spec_file_pages(),
                        ;
                    }
                    self.file[i * PAGE_SIZE + j]
                };
                proof {
                    lemma_fundamental_div_mod_converse(
                        i as int * (PAGE_SIZE as int) + j as int,
                        PAGE_SIZE as int,
                        i as int,
                        j as int,
                    );
                    assert(b == self.page_view(i as int)[j as int]);
                }
                out.push(b);
                j += 1;
            }
            i += 1;
        }
        proof {
            assert(out@ =~= spec_close_file(*self));
            lemma_fundamental_div_mod_converse(
                out@.len() as int,
                PAGE_SIZE as int,
                total as int,
                0,
            );
        }
        out
    }
}

/// The file image produced by closing the pager: the concatenation of
/// the pager's current pages, over the range closing writes out.
pub open spec fn spec_close_file(p: Pager) -> Seq<u8> {
    Seq::new(
        (p.spec_total_pages() * (PAGE_SIZE as int)) as nat,
        |k: int| p.page_view(k / (PAGE_SIZE as int))[k % (PAGE_SIZE as int)],
    )
}

/// Builds the all-zero page buffer.
fn zero_page_data() -> (data: Vec<u8>)
    ensures
        data@ == spec_zero_page(),
{
    let mut data: Vec<u8> = Vec::new();
    while data.len() < PAGE_SIZE
        invariant
            data@.len() <= PAGE_SIZE,
            forall|j: int| 0 <= j < data@.len() ==> data@[j] == 0u8,
        decreases PAGE_SIZE - data@.len(),
    {
        data.push(0);
    }
    proof {
        assert(data@ =~= spec_zero_page());
    }
    data
}

} // verus!
