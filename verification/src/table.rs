//! The table: a bounded sequence of rows stored through the pager.  A
//! row index resolves to a page and a byte offset inside that page by a
//! pure addressing function, and rows are only ever appended.

use vstd::prelude::*;
use vstd::arithmetic::div_mod::{
    lemma_div_is_ordered, lemma_fundamental_div_mod, lemma_fundamental_div_mod_converse,
};
use crate::pager::{spec_close_file, spec_file_page, spec_splice, Pager};
use crate::row::{spec_deserialize, spec_serialize, lemma_row_round_trip, Row, RowView, ROW_SIZE};

verus! {

pub const PAGE_SIZE: usize = 4096;

pub const TABLE_MAX_PAGES: usize = 100;

pub const ROWS_PER_PAGE: usize = PAGE_SIZE / ROW_SIZE;

pub const TABLE_MAX_ROWS: usize = ROWS_PER_PAGE * TABLE_MAX_PAGES;

/// One fixed-size page: a byte buffer holding up to `ROWS_PER_PAGE`
/// whole rows packed from offset 0.
pub struct Page {
    pub data: Vec<u8>,
}

impl Page {
    /// A page always holds exactly `PAGE_SIZE` bytes.
    pub open spec fn wf(self) -> bool {
        self.data@.len() == PAGE_SIZE
    }
}

#[derive(Debug)]
pub enum TableError {
    TableFull,
}

/// The values of the derived layout constants.  The divisions in their
/// definitions are pinned down once here, through the fundamental
/// div/mod law, so that the addressing proofs can use plain numbers.
pub proof fn lemma_layout_constants()
    ensures
        ROW_SIZE == 291,
        ROWS_PER_PAGE == 14,
        TABLE_MAX_ROWS == 1400,
        (TABLE_MAX_PAGES as int * PAGE_SIZE as int) / (ROW_SIZE as int) == 1407,
        ((TABLE_MAX_PAGES as int * PAGE_SIZE as int) / (ROW_SIZE as int)) / (ROWS_PER_PAGE
            as int) == TABLE_MAX_PAGES as int,
        (TABLE_MAX_PAGES as int * PAGE_SIZE as int) / (PAGE_SIZE as int) == TABLE_MAX_PAGES
            as int,
{
    lemma_fundamental_div_mod_converse(4096, 291, 14, 22);
    lemma_fundamental_div_mod_converse(409600, 291, 1407, 163);
    lemma_fundamental_div_mod_converse(1407, 14, 100, 7);
    lemma_fundamental_div_mod_converse(409600, 4096, 100, 0);
}

/// The page a row index lives on.
pub open spec fn spec_row_page(i: int) -> int {
    i / (ROWS_PER_PAGE as int)
}

/// The byte offset of a row index inside its page.
pub open spec fn spec_row_offset(i: int) -> int {
    (i % (ROWS_PER_PAGE as int)) * (ROW_SIZE as int)
}

/// The `ROW_SIZE`-byte block of row `i` in the pager's current pages.
pub open spec fn spec_row_block(p: Pager, i: int) -> Seq<u8> {
    p.page_view(spec_row_page(i)).subrange(
        spec_row_offset(i),
        spec_row_offset(i) + ROW_SIZE as int,
    )
}

/// The block of row `i` as read directly from a file image.
pub open spec fn spec_file_row_block(file: Seq<u8>, i: int) -> Seq<u8> {
    spec_file_page(file, spec_row_page(i)).subrange(
        spec_row_offset(i),
        spec_row_offset(i) + ROW_SIZE as int,
    )
}

/// The rows a file image holds: its length determines the row count,
/// and each row is decoded from its addressed block.
pub open spec fn spec_file_rows(file: Seq<u8>) -> Seq<RowView> {
    Seq::new(
        (file.len() as int / (ROW_SIZE as int)) as nat,
        |i: int| spec_deserialize(spec_file_row_block(file, i)),
    )
}

/// The table: its live row count and the pager that stores the pages.
pub struct Table {
    pub num_rows: usize,
    pub pager: Pager,
}

impl View for Table {
    type V = Seq<RowView>;

    /// The table's value: its rows, each decoded from its addressed
    /// block in the pager's current pages.
    open spec fn view(&self) -> Seq<RowView> {
        Seq::new(
            self.num_rows as nat,
            |i: int| spec_deserialize(spec_row_block(self.pager, i)),
        )
    }
}

impl Table {
    /// The pager is well-formed, the stored rows fit in the pages that
    /// closing writes out, and the row count stays within what a
    /// full-size file can carry.
    pub open spec fn wf(self) -> bool {
        &&& self.pager.wf()
        &&& self.num_rows as int * (ROW_SIZE as int) <= self.pager.spec_total_pages() * (PAGE_SIZE
            as int)
        &&& self.num_rows as int <= (TABLE_MAX_PAGES as int * PAGE_SIZE as int) / (ROW_SIZE as int)
    }

    /// Opens a table on a file image; the row count is recovered from
    /// the file length alone.
    pub fn db_open(contents: Vec<u8>) -> (t: Table)
        requires
            contents@.len() as int % (PAGE_SIZE as int) == 0,
            contents@.len() <= TABLE_MAX_PAGES * PAGE_SIZE,
        ensures
            t.wf(),
            t.pager.file@ == contents@,
            t.pager.pages@.len() == 0,
            t.num_rows as int == contents@.len() as int / (ROW_SIZE as int),
            t@ == spec_file_rows(contents@),
    {
        let pager = Pager::new(contents);
        let num_rows = pager.num_rows();
        let t = Table { num_rows, pager };
        proof {
            let l = t.pager.file@.len() as int;
            lemma_fundamental_div_mod(l, ROW_SIZE as int);
            lemma_div_is_ordered(l, TABLE_MAX_PAGES as int * PAGE_SIZE as int, ROW_SIZE as int);
            assert(t@ =~= spec_file_rows(t.pager.file@));
        }
        t
    }

    /// Builds the file image to write back on shutdown: every cached
    /// page, and the untouched tail of the old image after them.
    pub fn db_close(&self) -> (out: Vec<u8>)
        requires
            self.wf(),
        ensures
            out@ == spec_close_file(self.pager),
            out@.len() == self.pager.spec_total_pages() * (PAGE_SIZE as int),
            out@.len() as int % (PAGE_SIZE as int) == 0,
    {
        self.pager.close()
    }

    /// The pure addressing function: the page index and byte offset of
    /// a row index.  It depends on the row index alone.
    pub fn row_slot(row_num: usize) -> (r: (usize, usize))
        requires
            row_num as int <= (TABLE_MAX_PAGES as int * PAGE_SIZE as int) / (ROW_SIZE as int),
        ensures
            r.0 as int == spec_row_page(row_num as int),
            r.1 as int == spec_row_offset(row_num as int),
            r.0 <= TABLE_MAX_PAGES,
            r.1 + ROW_SIZE <= PAGE_SIZE,
    {
        proof {
            lemma_layout_constants();
        }
        let page_num = row_num / ROWS_PER_PAGE;
        let row_offset = row_num % ROWS_PER_PAGE;
        let byte_offset = row_offset * ROW_SIZE;

        proof {
            lemma_div_is_ordered(
                row_num as int,
                (TABLE_MAX_PAGES as int * PAGE_SIZE as int) / (ROW_SIZE as int),
                ROWS_PER_PAGE as int,
            );
        }
        (page_num, byte_offset)
    }

    /// Appends a row at index `num_rows`: rejected with `TableFull` at
    /// the capacity guard, one row short of the page budget; otherwise
    /// the encoded row is copied into its slot and the count grows by
    /// one.  No other row changes.
    pub fn insert_row(&mut self, row: Row) -> (res: Result<(), TableError>)
        requires
            old(self).wf(),
            row.wf(),
        ensures
            final(self).wf(),
            final(self).pager.file@ == old(self).pager.file@,
            old(self).num_rows >= TABLE_MAX_ROWS - 1 ==> (res matches Err(
                TableError::TableFull,
            )) && *final(self) == *old(self),
            old(self).num_rows < TABLE_MAX_ROWS - 1 ==> res is Ok && final(self).num_rows == old(
                self,
            ).num_rows + 1 && final(self)@ == old(self)@.push(row@),
    {
        proof {
            lemma_layout_constants();
        }
        if self.num_rows >= TABLE_MAX_ROWS - 1 {
            return Err(TableError::TableFull);
        }

        let row_num = self.num_rows;
        let (page_idx, offset) = Table::row_slot(row_num);
        let bytes = row.serialize_row();
        self.pager.write_in_page(page_idx, offset, &bytes);
        self.num_rows = self.num_rows + 1;

        proof {
            lemma_insert_updates_view(
                *old(self),
                *self,
                row@,
                row_num as int,
                page_idx as int,
                offset as int,
            );
        }
        Ok(())
    }
}

/// The state after writing row `n`'s encoding into its slot holds the
/// old rows unchanged and the new row appended, and stays well-formed.
proof fn lemma_insert_updates_view(pre: Table, post: Table, r: RowView, n: int, pi: int, off: int)
    requires
        pre.wf(),
        r.wf(),
        0 <= n < TABLE_MAX_ROWS - 1,
        n == pre.num_rows,
        pi == spec_row_page(n),
        off == spec_row_offset(n),
        post.num_rows == n + 1,
        post.pager.wf(),
        post.pager.file@ == pre.pager.file@,
        post.pager.pages@.len() == (if pre.pager.pages@.len() > pi {
            pre.pager.pages@.len() as int
        } else {
            pi + 1
        }),
        forall|i: int| i != pi ==> #[trigger] post.pager.page_view(i) == pre.pager.page_view(i),
        post.pager.page_view(pi) == spec_splice(
            pre.pager.page_view(pi),
            off,
            spec_serialize(r),
        ),
    ensures
        post.wf(),
        post@ == pre@.push(r),
{
    lemma_layout_constants();
    let rpp = ROWS_PER_PAGE as int;
    let rsz = ROW_SIZE as int;
    let psz = PAGE_SIZE as int;
    let old_page = pre.pager.page_view(pi);
    let enc = spec_serialize(r);

    lemma_fundamental_div_mod(n, rpp);
    assert(old_page.len() == psz);
    assert(0 <= off && off + rsz <= psz);

    // The appended row reads back as `r`.
    assert(spec_row_block(post.pager, n) =~= enc);
    lemma_row_round_trip(r);

    // Every earlier row block is untouched.
    assert forall|i: int| 0 <= i < n implies spec_row_block(post.pager, i) == spec_row_block(
        pre.pager,
        i,
    ) by {
        if spec_row_page(i) == pi {
            lemma_fundamental_div_mod(i, rpp);
            assert(i % rpp < n % rpp);
            assert(spec_row_offset(i) + rsz <= off);
            assert(spec_row_block(post.pager, i) =~= spec_row_block(pre.pager, i));
        }
    }
    assert(post@ =~= pre@.push(r));

    // Well-formedness: the grown row count still fits the pages that
    // closing writes out.
    let total = post.pager.spec_total_pages();
    assert(pi + 1 <= total);
    assert(n + 1 <= rpp * (pi + 1));
    assert((n + 1) * rsz <= (rpp * (pi + 1)) * rsz) by (nonlinear_arith)
        requires
            n + 1 <= rpp * (pi + 1),
            rsz > 0,
    ;
    assert((rpp * (pi + 1)) * rsz <= (pi + 1) * psz) by (nonlinear_arith)
        requires
            rpp == ROWS_PER_PAGE as int,
            rsz == ROW_SIZE as int,
            psz == PAGE_SIZE as int,
            pi + 1 > 0,
    ;
    assert((pi + 1) * psz <= total * psz) by (nonlinear_arith)
        requires
            pi + 1 <= total,
            psz > 0,
    ;
}

/// Persistence law: closing a table and reopening the written file
/// yields every stored row again, in the same order, at the head of
/// the reopened table.  (The reopened table derives its row count from
/// the file length alone, so whole trailing pages can make it count
/// further all-zero rows after them.)
pub proof fn lemma_persistence(t: Table)
    requires
        t.wf(),
        t.pager.pages@.len() <= TABLE_MAX_PAGES,
    ensures
        spec_close_file(t.pager).len() as int % (PAGE_SIZE as int) == 0,
        spec_close_file(t.pager).len() <= TABLE_MAX_PAGES * PAGE_SIZE,
        spec_file_rows(spec_close_file(t.pager)).len() >= t@.len(),
        forall|i: int|
            0 <= i < t@.len() ==> spec_file_rows(spec_close_file(t.pager))[i] == t@[i],
{
    let psz = PAGE_SIZE as int;
    let rsz = ROW_SIZE as int;
    let f = spec_close_file(t.pager);
    let total = t.pager.spec_total_pages();

    lemma_fundamental_div_mod(t.pager.file@.len() as int, psz);
    lemma_div_is_ordered(
        t.pager.file@.len() as int,
        TABLE_MAX_PAGES as int * psz,
        psz,
    );
    assert(total <= TABLE_MAX_PAGES as int);
    assert(f.len() == total * psz);
    assert(total * psz <= TABLE_MAX_PAGES as int * psz) by (nonlinear_arith)
        requires
            total <= TABLE_MAX_PAGES as int,
            psz > 0,
    ;
    lemma_fundamental_div_mod_converse(f.len() as int, psz, total, 0);

    // Page for page, the written file reads back as the pager stood.
    assert forall|idx: int| #[trigger] spec_file_page(f, idx) == t.pager.page_view(idx) by {
        lemma_close_file_page(t.pager, idx);
    }

    // The row count can only grow: all stored rows still fit.
    assert(t.num_rows as int * rsz <= f.len());
    lemma_div_is_ordered(t.num_rows as int * rsz, f.len() as int, rsz);
    lemma_fundamental_div_mod_converse(t.num_rows as int * rsz, rsz, t.num_rows as int, 0);
    assert(spec_file_rows(f).len() >= t@.len());

    assert forall|i: int| 0 <= i < t@.len() implies spec_file_rows(f)[i] == t@[i] by {
        assert(spec_file_page(f, spec_row_page(i)) == t.pager.page_view(spec_row_page(i)));
    }
}

/// Reading any page back out of the close image gives the page the
/// pager held when it was written.
proof fn lemma_close_file_page(p: Pager, idx: int)
    requires
        p.wf(),
    ensures
        spec_file_page(spec_close_file(p), idx) == p.page_view(idx),
{
    let psz = PAGE_SIZE as int;
    let f = spec_close_file(p);
    let total = p.spec_total_pages();
    lemma_fundamental_div_mod(p.file@.len() as int, psz);

    if 0 <= idx && idx < total {
        assert((idx + 1) * psz <= total * psz) by (nonlinear_arith)
            requires
                idx + 1 <= total,
                psz > 0,
        ;
        assert forall|k: int| 0 <= k < psz implies f[idx * psz + k] == p.page_view(idx)[k] by {
            lemma_fundamental_div_mod_converse(idx * psz + k, psz, idx, k);
        }
        assert(spec_file_page(f, idx) =~= p.page_view(idx));
    } else {
        if idx >= total {
            assert(p.spec_file_pages() <= idx);
            assert(p.spec_file_pages() * psz <= idx * psz) by (nonlinear_arith)
                requires
                    p.spec_file_pages() <= idx,
                    psz > 0,
            ;
            assert((idx + 1) * psz > p.file@.len()) by (nonlinear_arith)
                requires
                    idx * psz >= p.file@.len() as int,
                    psz > 0,
            ;
            assert((idx + 1) * psz > f.len()) by (nonlinear_arith)
                requires
                    idx >= total,
                    psz > 0,
                    f.len() == total * psz,
            ;
        }
        assert(spec_file_page(f, idx) =~= p.page_view(idx));
    }
}

} // verus!
