//! The state of the table being built: its phase, the cell position in the
//! current row, the column alignments, and the cells finished so far.
use vstd::prelude::*;
use crate::model::{Alignment, Block, Inline, TableCell, block_wf, cells_wf, inlines_wf, rows_wf};

verus! {

#[derive(Clone, Copy, Debug, PartialEq, Eq, Structural)]
pub enum TablePhase {
    Head,
    Body,
}

pub struct TableState {
    pub phase: TablePhase,
    pub cell_index: usize,
    pub alignments: Vec<Alignment>,
    pub header: Vec<TableCell>,
    pub rows: Vec<Vec<TableCell>>,
    pub row: Vec<TableCell>,
}

/// The alignment of the column at `index`; none past the declared columns.
pub open spec fn column_alignment(alignments: Seq<Alignment>, index: int) -> Alignment {
    if 0 <= index < alignments.len() {
        alignments[index]
    } else {
        Alignment::Unspecified
    }
}

/// The alignment of the column at `index` of `alignments`.
pub fn alignment_at(alignments: &Vec<Alignment>, index: usize) -> (r: Alignment)
    ensures
        r == column_alignment(alignments@, index as int),
{
    if index < alignments.len() {
        alignments[index]
    } else {
        Alignment::Unspecified
    }
}

impl TableState {
    pub open spec fn wf(&self) -> bool {
        cells_wf(self.header@) && rows_wf(self.rows@) && cells_wf(self.row@)
    }

    /// A table that has just opened, in its head, with the given alignments.
    pub fn new(alignments: Vec<Alignment>) -> (r: TableState)
        ensures
            r.wf(),
            r.phase == TablePhase::Head,
            r.cell_index == 0,
            r.alignments@ == alignments@,
            r.header@.len() == 0,
            r.rows@.len() == 0,
            r.row@.len() == 0,
    {
        TableState {
            phase: TablePhase::Head,
            cell_index: 0,
            alignments,
            header: Vec::new(),
            rows: Vec::new(),
            row: Vec::new(),
        }
    }

    /// The head has ended: later cells belong to body rows.
    pub fn end_head(&mut self)
        requires
            old(self).wf(),
        ensures
            final(self).wf(),
            final(self).phase == TablePhase::Body,
            final(self).alignments@ == old(self).alignments@,
            final(self).cell_index == old(self).cell_index,
            final(self).header@ == old(self).header@,
            final(self).rows@ == old(self).rows@,
            final(self).row@ == old(self).row@,
    {
        self.phase = TablePhase::Body;
    }

    /// A row starts: its first cell is in column 0.
    pub fn start_row(&mut self)
        requires
            old(self).wf(),
        ensures
            final(self).wf(),
            final(self).phase == old(self).phase,
            final(self).alignments@ == old(self).alignments@,
            final(self).cell_index == 0,
            final(self).header@ == old(self).header@,
            final(self).rows@ == old(self).rows@,
            final(self).row@.len() == 0,
    {
        self.cell_index = 0;
        self.row = Vec::new();
    }

    /// A cell has ended with `content`: it takes the alignment of its column
    /// and joins the header in the head or the current row in the body.
    pub fn end_cell(&mut self, content: Vec<Inline>)
        requires
            old(self).wf(),
            inlines_wf(content@),
        ensures
            final(self).wf(),
            final(self).phase == old(self).phase,
            final(self).alignments@ == old(self).alignments@,
            final(self).rows@ == old(self).rows@,
            final(self).cell_index == if old(self).cell_index < usize::MAX {
                old(self).cell_index + 1
            } else {
                old(self).cell_index as int
            },
            old(self).phase == TablePhase::Head ==> final(self).row@ == old(self).row@
                && final(self).header@ == old(self).header@.push(
                TableCell { align: column_alignment(old(self).alignments@, old(self).cell_index as int), content },
            ),
            old(self).phase == TablePhase::Body ==> final(self).header@ == old(self).header@
                && final(self).row@ == old(self).row@.push(
                TableCell { align: column_alignment(old(self).alignments@, old(self).cell_index as int), content },
            ),
    {
        let align = alignment_at(&self.alignments, self.cell_index);
        match self.phase {
            TablePhase::Head => {
                self.header.push(TableCell { align, content });
                assert(cells_wf(self.header@)) by {
                    assert forall|i: int| 0 <= i < self.header@.len() implies inlines_wf(
                        (#[trigger] self.header@[i]).content@,
                    ) by {
                        if i < old(self).header@.len() {
                            assert(self.header@[i] == old(self).header@[i]);
                        }
                    }
                }
            },
            TablePhase::Body => {
                self.row.push(TableCell { align, content });
                assert(cells_wf(self.row@)) by {
                    assert forall|i: int| 0 <= i < self.row@.len() implies inlines_wf(
                        (#[trigger] self.row@[i]).content@,
                    ) by {
                        if i < old(self).row@.len() {
                            assert(self.row@[i] == old(self).row@[i]);
                        }
                    }
                }
            },
        }
        if self.cell_index < usize::MAX {
            self.cell_index = self.cell_index + 1;
        }
    }

    /// A row has ended: in the body its cells become a row of the table.
    pub fn end_row(&mut self)
        requires
            old(self).wf(),
        ensures
            final(self).wf(),
            final(self).phase == old(self).phase,
            final(self).header@ == old(self).header@,
            final(self).alignments@ == old(self).alignments@,
            final(self).cell_index == old(self).cell_index,
            final(self).row@.len() == 0,
            old(self).phase == TablePhase::Head ==> final(self).rows@ == old(self).rows@,
            old(self).phase == TablePhase::Body ==> final(self).rows@ == old(self).rows@.push(old(self).row),
    {
        let mut row: Vec<TableCell> = Vec::new();
        std::mem::swap(&mut row, &mut self.row);
        if self.phase == TablePhase::Body {
            self.rows.push(row);
            assert(rows_wf(self.rows@)) by {
                assert forall|i: int| 0 <= i < self.rows@.len() implies cells_wf((#[trigger] self.rows@[i])@) by {
                    if i < old(self).rows@.len() {
                        assert(self.rows@[i] == old(self).rows@[i]);
                    }
                }
            }
        }
    }

    /// The finished table block, whatever phase the table ended in.
    pub fn finish(self) -> (b: Block)
        requires
            self.wf(),
        ensures
            block_wf(b),
            b matches Block::Table { header, rows } && header@ == self.header@ && rows@ == self.rows@,
    {
        Block::Table { header: self.header, rows: self.rows }
    }
}

} // verus!
