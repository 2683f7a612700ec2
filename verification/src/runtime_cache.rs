//! What an index keeps so that it need not be derived again, and how it tells
//! which of it has gone stale.

use vstd::prelude::*;

use crate::float32::Float32;
use crate::pack::BlockLayout;

verus! {

/// Values derived from an index and stored beside it.
pub struct RuntimeCache {
    pub rotation: Vec<Float32>,
    pub boundaries: Vec<Float32>,
    pub centroids: Vec<Float32>,
    pub layout: BlockLayout,
    pub blocked_data: Vec<u8>,
    pub n_blocks: usize,
}

/// What has happened to the codes since the stored cache was written.
#[derive(Debug)]
pub enum RuntimeCacheMode {
    /// Vectors were added at the end, and nothing else.
    AppendOnly,
    /// These blocks no longer hold what they held, in ascending order.
    DirtyBlocks(Vec<usize>),
}

/// The contents of a [`RuntimeCacheMode`].
pub enum RuntimeCacheModeView {
    AppendOnly,
    DirtyBlocks(Set<usize>),
}

impl RuntimeCacheModeView {
    /// The blocks that no longer hold what they held.
    pub open spec fn blocks(self) -> Set<usize> {
        match self {
            RuntimeCacheModeView::AppendOnly => Set::empty(),
            RuntimeCacheModeView::DirtyBlocks(blocks) => blocks,
        }
    }

    /// One more block has changed.
    pub open spec fn marked(self, block: usize) -> RuntimeCacheModeView {
        RuntimeCacheModeView::DirtyBlocks(self.blocks().insert(block))
    }
}

/// In ascending order, nothing twice.
pub open spec fn strictly_ascending(blocks: Seq<usize>) -> bool {
    forall|i: int, j: int| 0 <= i < j < blocks.len() ==> blocks[i] < blocks[j]
}

impl View for RuntimeCacheMode {
    type V = RuntimeCacheModeView;

    open spec fn view(&self) -> RuntimeCacheModeView {
        match self {
            RuntimeCacheMode::AppendOnly => RuntimeCacheModeView::AppendOnly,
            RuntimeCacheMode::DirtyBlocks(blocks) => RuntimeCacheModeView::DirtyBlocks(
                blocks@.to_set(),
            ),
        }
    }
}

/// The first place of an ascending sequence at which `block` stands or could
/// be put in.
fn block_position(blocks: &Vec<usize>, block: usize) -> (result: usize)
    requires
        strictly_ascending(blocks@),
    ensures
        result <= blocks@.len(),
        forall|i: int| 0 <= i < result ==> #[trigger] blocks@[i] < block,
        forall|i: int| result <= i < blocks@.len() ==> #[trigger] blocks@[i] >= block,
{
    let mut low: usize = 0;
    let mut high: usize = blocks.len();
    while low < high
        invariant
            low <= high <= blocks@.len(),
            strictly_ascending(blocks@),
            forall|i: int| 0 <= i < low ==> #[trigger] blocks@[i] < block,
            forall|i: int| high <= i < blocks@.len() ==> #[trigger] blocks@[i] >= block,
        decreases high - low,
    {
        let mid: usize = low + (high - low) / 2;
        if blocks[mid] < block {
            low = mid + 1;
        } else {
            high = mid;
        }
    }
    low
}

impl RuntimeCacheMode {
    /// The blocks are in order.
    pub open spec fn wf(&self) -> bool {
        match self {
            RuntimeCacheMode::AppendOnly => true,
            RuntimeCacheMode::DirtyBlocks(blocks) => strictly_ascending(blocks@),
        }
    }

    /// A copy.
    pub fn copy(&self) -> (result: RuntimeCacheMode)
        requires
            self.wf(),
        ensures
            result.wf(),
            result@ == self@,
    {
        match self {
            RuntimeCacheMode::AppendOnly => RuntimeCacheMode::AppendOnly,
            RuntimeCacheMode::DirtyBlocks(blocks) => {
                let mut copy: Vec<usize> = Vec::new();
                copy.extend_from_slice(blocks.as_slice());
                assert(copy@ =~= blocks@);
                RuntimeCacheMode::DirtyBlocks(copy)
            },
        }
    }

    /// Notes that a block has changed.
    pub fn mark(self, block: usize) -> (result: RuntimeCacheMode)
        requires
            self.wf(),
        ensures
            result.wf(),
            result@ == self@.marked(block),
    {
        match self {
            RuntimeCacheMode::AppendOnly => {
                let blocks: Vec<usize> = vec![block];
                assert(blocks@ =~= seq![block]);
                assert(blocks@.contains(block)) by {
                    assert(blocks@[0] == block);
                }
                assert(blocks@.to_set() =~= Set::<usize>::empty().insert(block));
                RuntimeCacheMode::DirtyBlocks(blocks)
            },
            RuntimeCacheMode::DirtyBlocks(blocks) => {
                let mut blocks: Vec<usize> = blocks;
                let ghost before = blocks@;
                let pos: usize = block_position(&blocks, block);
                if pos < blocks.len() && blocks[pos] == block {
                    assert(before.contains(block)) by {
                        assert(before[pos as int] == block);
                    }
                    assert(before.to_set() =~= before.to_set().insert(block));
                    return RuntimeCacheMode::DirtyBlocks(blocks);
                }
                blocks.insert(pos, block);
                proof {
                    lemma_insert_to_set(before, pos as int, block);
                    assert(strictly_ascending(blocks@)) by {
                        assert forall|i: int, j: int| 0 <= i < j < blocks@.len() implies blocks@[i]
                            < blocks@[j] by {
                            if i != pos && j != pos {
                                let i0 = if i < pos {
                                    i
                                } else {
                                    i - 1
                                };
                                let j0 = if j < pos {
                                    j
                                } else {
                                    j - 1
                                };
                                assert(before[i0] < before[j0]);
                            } else if i == pos {
                                assert(before[j - 1] >= block);
                                assert(before[pos as int] != block);
                                if j - 1 > pos {
                                    assert(before[pos as int] < before[j - 1]);
                                }
                            } else {
                                assert(before[i] < block);
                            }
                        }
                    }
                }
                RuntimeCacheMode::DirtyBlocks(blocks)
            },
        }
    }
}

/// Putting something into a sequence adds it to what the sequence holds.
proof fn lemma_insert_to_set(s: Seq<usize>, pos: int, x: usize)
    requires
        0 <= pos <= s.len(),
    ensures
        s.insert(pos, x).to_set() == s.to_set().insert(x),
{
    let t = s.insert(pos, x);
    assert forall|a: usize| t.contains(a) <==> s.contains(a) || a == x by {
        if t.contains(a) {
            let i = choose|i: int| 0 <= i < t.len() && t[i] == a;
            if i < pos {
                assert(s[i] == a);
            } else if i > pos {
                assert(s[i - 1] == a);
            }
        }
        if s.contains(a) {
            let i = choose|i: int| 0 <= i < s.len() && s[i] == a;
            if i < pos {
                assert(t[i] == a);
            } else {
                assert(t[i + 1] == a);
            }
        }
        if a == x {
            assert(t[pos] == a);
        }
    }
    assert(t.to_set() =~= s.to_set().insert(x));
}

/// What is known of the codes is a set of blocks: none where vectors were only
/// added, otherwise the blocks listed; noting a change adds that block and
/// keeps the others.
pub proof fn lemma_marks_are_a_set(mode: RuntimeCacheMode, block: usize, other: usize)
    ensures
        mode is AppendOnly <==> mode@ is AppendOnly,
        mode is AppendOnly ==> !mode@.blocks().contains(other),
        mode matches RuntimeCacheMode::DirtyBlocks(blocks) ==> (mode@.blocks().contains(other)
            <==> blocks@.contains(other)),
        mode@.marked(block) is DirtyBlocks,
        mode@.marked(block).blocks().contains(other) <==> other == block
            || mode@.blocks().contains(other),
        mode.wf() <==> (mode matches RuntimeCacheMode::DirtyBlocks(blocks) ==> forall|
            i: int,
            j: int,
        |
            0 <= i < j < blocks@.len() ==> #[trigger] blocks@[i] < #[trigger] blocks@[j]),
{
}

} // verus!
