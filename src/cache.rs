use vstd::prelude::*;
use crate::store::ScannedBlock;

verus! {

/// Blocks waiting to be scanned, at most one per height, kept in height
/// order.
#[derive(Debug, Clone)]
pub struct BlockCache {
    pub blocks: Vec<ScannedBlock>,
}

pub open spec fn sorted_by_height(s: Seq<ScannedBlock>) -> bool {
    forall|i: int, j: int| 0 <= i < j < s.len() ==> #[trigger] s[i].height < #[trigger] s[j].height
}

pub open spec fn heights(s: Seq<ScannedBlock>) -> Seq<u64> {
    s.map_values(|b: ScannedBlock| b.height)
}

/// At most `limit` items from the front of `s`, or all of them without a
/// limit.
pub open spec fn bounded(s: Seq<u64>, limit: Option<usize>) -> Seq<u64> {
    match limit {
        None => s,
        Some(l) => if s.len() <= l {
            s
        } else {
            s.take(l as int)
        },
    }
}

/// The heights from `from` on, in order, at most `limit` of them.
pub open spec fn heights_from(s: Seq<ScannedBlock>, from: u64, limit: Option<usize>) -> Seq<u64> {
    bounded(heights(s).filter(|h: u64| h >= from), limit)
}

impl BlockCache {
    pub open spec fn wf(&self) -> bool {
        sorted_by_height(self.blocks@)
    }

    /// An empty cache.
    pub fn new() -> (r: BlockCache)
        ensures
            r.wf(),
            r.blocks@.len() == 0,
    {
        BlockCache { blocks: Vec::new() }
    }

    /// Stores `block`, replacing the one at its height if there is one.
    pub fn write_block(&mut self, block: ScannedBlock)
        requires
            old(self).wf(),
        ensures
            final(self).wf(),
            forall|i: int|
                0 <= i < final(self).blocks@.len() && #[trigger] final(self).blocks@[i].height
                    == block.height ==> final(self).blocks@[i] == block,
            exists|i: int|
                0 <= i < final(self).blocks@.len() && final(self).blocks@[i].height == block.height,
            forall|i: int|
                0 <= i < old(self).blocks@.len() && #[trigger] old(self).blocks@[i].height
                    != block.height ==> final(self).blocks@.contains(old(self).blocks@[i]),
            forall|j: int|
                0 <= j < final(self).blocks@.len() && #[trigger] final(self).blocks@[j].height
                    != block.height ==> old(self).blocks@.contains(final(self).blocks@[j]),
    {
        let h = block.height;
        let ghost orig = self.blocks@;
        let n = self.blocks.len();
        let mut i: usize = 0;
        while i < n && self.blocks[i].height < h
            invariant
                n == self.blocks@.len(),
                self.blocks@ == orig,
                0 <= i <= n,
                forall|j: int| 0 <= j < i ==> #[trigger] orig[j].height < h,
            decreases n - i,
        {
            i = i + 1;
        }
        if i < n && self.blocks[i].height == h {
            self.blocks.set(i, block);
            proof {
                assert forall|j: int|
                    0 <= j < orig.len() && #[trigger] orig[j].height != h implies self.blocks@.contains(
                    orig[j],
                ) by {
                    assert(self.blocks@[j] == orig[j]);
                }
                assert forall|j: int|
                    0 <= j < self.blocks@.len() && #[trigger] self.blocks@[j].height
                        != h implies orig.contains(self.blocks@[j]) by {
                    assert(self.blocks@[j] == orig[j]);
                }
                assert(self.blocks@[i as int].height == h);
            }
        } else {
            self.blocks.insert(i, block);
            proof {
                let s = self.blocks@;
                assert(s == orig.insert(i as int, block));
                assert forall|j: int| i < j < s.len() implies #[trigger] s[j].height > h by {
                    assert(s[j] == orig[j - 1]);
                    if j - 1 > i {
                        assert(orig[i as int].height < orig[j - 1].height);
                    }
                }
                assert forall|a: int, b: int| 0 <= a < b < s.len() implies #[trigger] s[a].height
                    < #[trigger] s[b].height by {
                    if b < i {
                        assert(s[a] == orig[a] && s[b] == orig[b]);
                    } else if b == i {
                        assert(s[a] == orig[a]);
                    } else if a < i {
                        assert(s[a] == orig[a]);
                        assert(s[b].height > h);
                    } else if a == i {
                    } else {
                        assert(s[a] == orig[a - 1] && s[b] == orig[b - 1]);
                    }
                }
                assert forall|j: int|
                    0 <= j < orig.len() && #[trigger] orig[j].height != h implies s.contains(
                    orig[j],
                ) by {
                    if j < i {
                        assert(s[j] == orig[j]);
                    } else {
                        assert(s[j + 1] == orig[j]);
                    }
                }
                assert forall|j: int| 0 <= j < s.len() && #[trigger] s[j].height != h implies orig.contains(
                    s[j],
                ) by {
                    if j < i {
                        assert(s[j] == orig[j]);
                    } else if j > i {
                        assert(s[j] == orig[j - 1]);
                    }
                }
                assert(s[i as int].height == h);
                assert forall|j: int| 0 <= j < s.len() && #[trigger] s[j].height == h implies s[j]
                    == block by {
                    if j < i {
                        assert(s[j] == orig[j]);
                    } else if j > i {
                        assert(s[j].height > h);
                    }
                }
            }
        }
    }

    /// The heights held from `from` on (from the lowest without one), in
    /// order, at most `limit` of them.
    pub fn heights_from(&self, from: Option<u64>, limit: Option<usize>) -> (r: Vec<u64>)
        ensures
            r@ == heights_from(
                self.blocks@,
                match from {
                    Some(f) => f,
                    None => 0,
                },
                limit,
            ),
    {
        let start: u64 = match from {
            Some(f) => f,
            None => 0,
        };
        let ghost s = self.blocks@;
        let mut out: Vec<u64> = Vec::new();
        let mut i: usize = 0;
        while i < self.blocks.len()
            invariant
                s == self.blocks@,
                0 <= i <= s.len(),
                out@ == bounded(heights(s.take(i as int)).filter(|h: u64| h >= start), limit),
            decreases self.blocks.len() - i,
        {
            let ghost pre = heights(s.take(i as int)).filter(|h: u64| h >= start);
            let h = self.blocks[i].height;
            proof {
                assert(heights(s.take(i + 1)) =~= heights(s.take(i as int)).push(h));
                reveal(Seq::filter);
                assert(heights(s.take(i + 1)).drop_last() =~= heights(s.take(i as int)));
            }
            if h >= start {
                let room = match limit {
                    None => true,
                    Some(l) => out.len() < l,
                };
                if room {
                    out.push(h);
                    proof {
                        assert(out@ =~= bounded(pre.push(h), limit));
                    }
                } else {
                    proof {
                        assert(bounded(pre.push(h), limit) =~= bounded(pre, limit));
                    }
                }
            }
            i = i + 1;
        }
        assert(s.take(i as int) =~= s);
        out
    }

    /// The block held at `height`, if any.
    pub fn block_at(&self, height: u64) -> (r: Option<&ScannedBlock>)
        ensures
            r is None <==> !(exists|i: int|
                0 <= i < self.blocks@.len() && self.blocks@[i].height == height),
            r matches Some(b) ==> b.height == height && self.blocks@.contains(*b),
    {
        let mut i: usize = 0;
        while i < self.blocks.len()
            invariant
                0 <= i <= self.blocks@.len(),
                forall|j: int| 0 <= j < i ==> #[trigger] self.blocks@[j].height != height,
            decreases self.blocks.len() - i,
        {
            if self.blocks[i].height == height {
                return Some(&self.blocks[i]);
            }
            i = i + 1;
        }
        None
    }
}

} // verus!
