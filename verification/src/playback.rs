//! Prefetching during playback: when playback reaches a new GOP, the next
//! GOPs are decoded ahead of it.

use vstd::prelude::*;

verus! {

/// How many GOPs past the current one are prefetched.
pub const PREFETCH_COUNT: usize = 2;

/// Remembers the GOP prefetching last started from, so that each GOP
/// reached starts prefetching once.
pub struct PrefetchTracker {
    last_prefetched_gop: Option<usize>,
}

impl PrefetchTracker {
    /// The GOP prefetching last started from.
    pub closed spec fn last(&self) -> Option<usize> {
        self.last_prefetched_gop
    }

    /// A tracker that has prefetched nothing.
    pub fn new() -> (t: Self)
        ensures
            t.last() is None,
    {
        PrefetchTracker { last_prefetched_gop: None }
    }

    /// The GOPs to prefetch now: while playing, on reaching a GOP other than
    /// the one prefetching last started from, the `PREFETCH_COUNT` GOPs after
    /// it; otherwise none. (The caller skips those already decoded.)
    pub fn gops_to_prefetch(&mut self, is_playing: bool, current_gop: Option<usize>) -> (gops: Vec<usize>)
        requires
            current_gop matches Some(g) ==> g + PREFETCH_COUNT <= usize::MAX,
        ensures
            (is_playing && current_gop is Some && current_gop != old(self).last()) ==> {
                &&& final(self).last() == current_gop
                &&& gops@ == seq![(current_gop->0 + 1) as usize, (current_gop->0 + 2) as usize]
            },
            !(is_playing && current_gop is Some && current_gop != old(self).last()) ==> {
                &&& final(self).last() == old(self).last()
                &&& gops@ == Seq::<usize>::empty()
            },
    {
        let mut gops: Vec<usize> = Vec::new();
        if !is_playing {
            return gops;
        }
        match current_gop {
            None => {},
            Some(g) => {
                let is_new = match self.last_prefetched_gop {
                    Some(l) => l != g,
                    None => true,
                };
                if is_new {
                    self.last_prefetched_gop = Some(g);
                    let mut i: usize = 1;
                    while i <= PREFETCH_COUNT
                        invariant
                            1 <= i <= PREFETCH_COUNT + 1,
                            g + PREFETCH_COUNT <= usize::MAX,
                            gops@ == Seq::new((i - 1) as nat, |k: int| (g + k + 1) as usize),
                        decreases PREFETCH_COUNT + 1 - i,
                    {
                        gops.push(g + i);
                        i = i + 1;
                        proof {
                            assert(gops@ =~= Seq::new((i - 1) as nat, |k: int| (g + k + 1) as usize));
                        }
                    }
                    proof {
                        assert(gops@ =~= seq![(g + 1) as usize, (g + 2) as usize]);
                    }
                }
            },
        }
        gops
    }
}

} // verus!
