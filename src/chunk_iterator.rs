use vstd::prelude::*;

use crate::block::{Block, BlockView, chunk_view, min, rows_of};

verus! {

/// Walks a block in chunks of at most `size` rows. A block without rows
/// gives one chunk: the block itself.
pub struct ChunkIterator<'a> {
    block: &'a Block,
    size: usize,
    position: usize,
}

impl<'a> ChunkIterator<'a> {
    pub closed spec fn block(&self) -> &'a Block {
        self.block
    }

    pub closed spec fn size(&self) -> usize {
        self.size
    }

    /// The next row to hand out; past the end once a block without rows was handed out.
    pub closed spec fn position(&self) -> usize {
        self.position
    }

    pub open spec fn wf(&self) -> bool {
        &&& self.block().wf()
        &&& (self.size() > 0 || rows_of(self.block()@.columns) == 0)
    }

    pub fn new(size: usize, block: &'a Block) -> (r: ChunkIterator<'a>)
        requires
            block.wf(),
            size > 0 || rows_of(block@.columns) == 0,
        ensures
            r.wf(),
            r.block() == block,
            r.size() == size,
            r.position() == 0,
    {
        ChunkIterator { block, size, position: 0 }
    }

    /// The next chunk, or `None` once the rows are all handed out.
    pub fn next(&mut self) -> (r: Option<Block>)
        requires
            old(self).wf(),
        ensures
            final(self).wf(),
            final(self).block() == old(self).block(),
            final(self).size() == old(self).size(),
            ({
                let b = old(self).block()@;
                let rows = rows_of(b.columns);
                let pos = old(self).position() as int;
                if rows == 0 {
                    if pos == 0 {
                        r is Some && r->Some_0@ == b && r->Some_0.wf() && final(self).position()
                            == 1
                    } else {
                        r is None && final(self).position() == pos
                    }
                } else if pos >= rows {
                    r is None && final(self).position() == pos
                } else {
                    let end = min(pos + old(self).size(), rows as int);
                    r is Some && r->Some_0@ == chunk_view(b, pos, end) && r->Some_0.wf()
                        && final(self).position() == end
                }
            }),
    {
        let rows = self.block.row_count();
        if rows == 0 {
            if self.position == 0 {
                self.position = 1;
                return Some(self.block.duplicate());
            }
            return None;
        }
        if self.position >= rows {
            return None;
        }
        let size = if self.size < rows - self.position {
            self.size
        } else {
            rows - self.position
        };
        let start = self.position;
        let end = start + size;
        let chunk = self.block.slice_rows(start, end);
        self.position = end;
        Some(chunk)
    }
}

} // verus!
