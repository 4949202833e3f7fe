//! Views: the relay parents that a party considers active.
use vstd::prelude::*;
use crate::BlockHash;

verus! {

/// A set of relay-chain heads, as held by this node or announced by a peer.
#[derive(Clone, Debug)]
pub struct RelayView {
    pub heads: Vec<BlockHash>,
}

impl RelayView {
    /// Whether `h` belongs to the view.
    pub open spec fn has(&self, h: BlockHash) -> bool {
        self.heads@.contains(h)
    }

    pub fn new(heads: Vec<BlockHash>) -> (r: RelayView)
        ensures
            r.heads@ == heads@,
    {
        RelayView { heads }
    }

    /// The empty view.
    pub fn empty() -> (r: RelayView)
        ensures
            r.heads@.len() == 0,
            forall|h: BlockHash| !r.has(h),
    {
        RelayView { heads: Vec::new() }
    }

    pub fn contains(&self, h: BlockHash) -> (r: bool)
        ensures
            r == self.has(h),
    {
        let mut i: usize = 0;
        while i < self.heads.len()
            invariant
                0 <= i <= self.heads@.len(),
                forall|j: int| 0 <= j < i ==> self.heads@[j] != h,
            decreases self.heads@.len() - i,
        {
            if self.heads[i] == h {
                return true;
            }
            i += 1;
        }
        false
    }

    /// The heads of this view that are not in `other`, each once.
    pub fn difference(&self, other: &RelayView) -> (r: Vec<BlockHash>)
        ensures
            forall|h: BlockHash| r@.contains(h) <==> (self.has(h) && !other.has(h)),
            r@.no_duplicates(),
    {
        let mut out: Vec<BlockHash> = Vec::new();
        let mut i: usize = 0;
        while i < self.heads.len()
            invariant
                0 <= i <= self.heads@.len(),
                out@.no_duplicates(),
                forall|h: BlockHash|
                    out@.contains(h) <==> (exists|j: int|
                        0 <= j < i && self.heads@[j] == h && !other.has(h)),
            decreases self.heads@.len() - i,
        {
            let h = self.heads[i];
            let ghost prev = out@;
            if !other.contains(h) && !vec_contains(&out, h) {
                out.push(h);
                proof {
                    assert forall|x: BlockHash| out@.contains(x) <==> (prev.contains(x) || x == h) by {
                        if out@.contains(x) && x != h {
                            let k = choose|k: int| 0 <= k < out@.len() && out@[k] == x;
                            assert(prev[k] == x);
                        }
                        if x == h {
                            assert(out@[prev.len() as int] == h);
                        }
                        if prev.contains(x) {
                            let k = choose|k: int| 0 <= k < prev.len() && prev[k] == x;
                            assert(out@[k] == x);
                        }
                    }
                }
            }
            proof {
                assert forall|x: BlockHash|
                    out@.contains(x) <==> (exists|j: int|
                        0 <= j < i + 1 && self.heads@[j] == x && !other.has(x)) by {
                    if exists|j: int| 0 <= j < i + 1 && self.heads@[j] == x && !other.has(x) {
                        let j = choose|j: int| 0 <= j < i + 1 && self.heads@[j] == x && !other.has(x);
                        if j < i {
                            assert(prev.contains(x));
                        }
                    }
                    if prev.contains(x) {
                        let j = choose|j: int| 0 <= j < i && self.heads@[j] == x && !other.has(x);
                        assert(0 <= j < i + 1);
                    }
                }
            }
            i += 1;
        }
        proof {
            assert forall|h: BlockHash| out@.contains(h) <==> (self.has(h) && !other.has(h)) by {
                if self.has(h) && !other.has(h) {
                    let j = choose|j: int| 0 <= j < self.heads@.len() && self.heads@[j] == h;
                    assert(0 <= j < i && self.heads@[j] == h && !other.has(h));
                }
            }
        }
        out
    }
}

/// Whether `v` holds `h`.
pub fn vec_contains(v: &Vec<BlockHash>, h: BlockHash) -> (r: bool)
    ensures
        r == v@.contains(h),
{
    let mut i: usize = 0;
    while i < v.len()
        invariant
            0 <= i <= v@.len(),
            forall|j: int| 0 <= j < i ==> v@[j] != h,
        decreases v@.len() - i,
    {
        if v[i] == h {
            return true;
        }
        i += 1;
    }
    false
}

} // verus!
