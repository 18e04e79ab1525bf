//! The cursor: a forward-only iterator over a table's rows.  It keeps
//! a row position and a snapshot of the row count taken at creation;
//! its only transition is `advance`, which is one-directional.

use vstd::prelude::*;
use vstd::slice::{slice_subrange, slice_to_vec};
use crate::row::{Row, ROW_SIZE};
use crate::table::{
    lemma_layout_constants, spec_row_block, Table, TableError, ROWS_PER_PAGE, TABLE_MAX_ROWS,
};

verus! {

/// Iteration state over a table: the current row index, the
/// end-of-table flag, and the row count captured when the cursor was
/// created.
pub struct Cursor {
    pub row_num: usize,
    pub end_of_table: bool,
    pub num_rows_in_table: usize,
}

impl Cursor {
    /// A cursor positioned at row 0; end-of-table holds immediately
    /// exactly when the table is empty.
    pub fn table_start(table: &Table) -> (c: Cursor)
        ensures
            c.row_num == 0,
            c.num_rows_in_table == table.num_rows,
            c.end_of_table == (table.num_rows == 0),
    {
        Cursor {
            end_of_table: table.num_rows == 0,
            num_rows_in_table: table.num_rows,
            row_num: 0,
        }
    }

    /// A cursor positioned one past the last row, always at
    /// end-of-table: the append point for inserts.
    pub fn table_end(table: &Table) -> (c: Cursor)
        ensures
            c.row_num == table.num_rows,
            c.num_rows_in_table == table.num_rows,
            c.end_of_table,
    {
        Cursor {
            row_num: table.num_rows,
            end_of_table: true,
            num_rows_in_table: table.num_rows,
        }
    }

    /// Moves one row forward; end-of-table is reached exactly when the
    /// position has caught up with the snapshot row count, and is
    /// never left again.
    pub fn advance(&mut self)
        requires
            old(self).row_num < usize::MAX,
        ensures
            final(self).row_num == old(self).row_num + 1,
            final(self).num_rows_in_table == old(self).num_rows_in_table,
            final(self).end_of_table == (old(self).end_of_table || old(self).row_num + 1 >= old(
                self,
            ).num_rows_in_table),
    {
        self.row_num += 1;

        if self.row_num >= self.num_rows_in_table {
            self.end_of_table = true;
        }
    }

    /// Appends through the table and steps the cursor past the new
    /// row; a full table is reported unchanged.
    pub fn add_row(&mut self, table: &mut Table, row: Row) -> (res: Result<(), TableError>)
        requires
            old(table).wf(),
            row.wf(),
            old(self).row_num < usize::MAX,
        ensures
            final(table).wf(),
            final(table).pager.file@ == old(table).pager.file@,
            final(self).num_rows_in_table == old(self).num_rows_in_table,
            old(table).num_rows >= TABLE_MAX_ROWS - 1 ==> (res matches Err(
                TableError::TableFull,
            )) && *final(table) == *old(table) && *final(self) == *old(self),
            old(table).num_rows < TABLE_MAX_ROWS - 1 ==> res is Ok
                && final(table).num_rows == old(table).num_rows + 1
                && final(table)@ == old(table)@.push(row@)
                && final(self).row_num == old(self).row_num + 1
                && final(self).end_of_table == (old(self).end_of_table
                    || old(self).row_num + 1 >= old(self).num_rows_in_table),
    {
        match table.insert_row(row) {
            Ok(_) => {},
            Err(e) => {
                return Err(e);
            },
        }
        self.advance();
        Ok(())
    }

    /// Reads the row under the cursor, through the table's addressing
    /// and the row codec.  Must not be called at end-of-table.  The
    /// table may load pages but none of its rows change.
    pub fn cursor_value(&self, table: &mut Table) -> (r: Row)
        requires
            old(table).wf(),
            self.num_rows_in_table == old(table).num_rows,
            !self.end_of_table,
            self.row_num < old(table).num_rows,
        ensures
            final(table).wf(),
            final(table).num_rows == old(table).num_rows,
            final(table).pager.file@ == old(table).pager.file@,
            final(table)@ == old(table)@,
            r.wf(),
            r@ == old(table)@[self.row_num as int],
    {
        proof {
            lemma_layout_constants();
            vstd::arithmetic::div_mod::lemma_div_is_ordered(
                self.row_num as int,
                1407,
                ROWS_PER_PAGE as int,
            );
        }
        let page_idx = self.row_num / ROWS_PER_PAGE;
        let page = table.pager.get_page(page_idx);

        let row_offset = self.row_num % ROWS_PER_PAGE;
        let byte_offset = row_offset * ROW_SIZE;

        let block = slice_to_vec(
            slice_subrange(page.data.as_slice(), byte_offset, byte_offset + ROW_SIZE),
        );
        proof {
            assert(block@ == spec_row_block(old(table).pager, self.row_num as int));
            assert forall|i: int| 0 <= i < table.num_rows implies spec_row_block(
                table.pager,
                i,
            ) == spec_row_block(old(table).pager, i) by {
                assert(table.pager.page_view(crate::table::spec_row_page(i)) == old(
                    table,
                ).pager.page_view(crate::table::spec_row_page(i)));
            }
            assert(table@ =~= old(table)@);
        }
        Row::deserialize_row(block)
    }
}

/// Whether a cursor started at the head of a table with `n` rows
/// reports end-of-table after `k` calls to `advance`: the flag starts
/// as `n == 0`, and each step keeps it or raises it once the position
/// `k` has reached `n`.  This mirrors the contracts of `table_start`
/// and `advance`, whose position after `k` steps is exactly `k`.
pub open spec fn spec_eot_after(n: nat, k: nat) -> bool
    decreases k,
{
    if k == 0 {
        n == 0
    } else {
        spec_eot_after(n, (k - 1) as nat) || k >= n
    }
}

/// Cursor termination law: starting at the head of an empty table the
/// cursor is at end-of-table immediately, and on a table with `n > 0`
/// rows it reaches end-of-table exactly after `n` advances, never
/// before.
pub proof fn lemma_cursor_termination(n: nat, k: nat)
    ensures
        spec_eot_after(n, k) == (n == 0 || k >= n),
    decreases k,
{
    if k > 0 {
        lemma_cursor_termination(n, (k - 1) as nat);
    }
}

} // verus!
