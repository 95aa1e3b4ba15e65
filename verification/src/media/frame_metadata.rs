//! Frame metadata cache for video seeking and GOP management.

use std::collections::HashMap;
use vstd::prelude::*;

verus! {

broadcast use vstd::std_specs::hash::group_hash_axioms;

/// Metadata for a single video frame.
///
/// `timestamp_bits` holds the IEEE-754 bit pattern of the timestamp in
/// seconds (an `f64`); nothing in this crate computes with it.
#[derive(Debug, Clone, Copy)]
pub struct FrameMetadata {
    /// Frame number in the stream (0-indexed)
    pub frame_number: usize,
    /// Presentation timestamp in stream time_base units
    pub pts: i64,
    /// Timestamp in seconds, as the bits of an `f64`
    pub timestamp_bits: u64,
    /// Whether this frame is a keyframe (I-frame)
    pub is_keyframe: bool,
    /// GOP (Group of Pictures) this frame belongs to
    pub gop_id: usize,
    /// File offset of the packet, if known
    pub file_offset: Option<i64>,
}

/// Frame numbers of the keyframes among `fs`, in order.
pub open spec fn keyframes_of(fs: Seq<FrameMetadata>) -> Seq<usize>
    decreases fs.len(),
{
    if fs.len() == 0 {
        Seq::empty()
    } else if fs.last().is_keyframe {
        keyframes_of(fs.drop_last()).push(fs.last().frame_number)
    } else {
        keyframes_of(fs.drop_last())
    }
}

/// Frame numbers of the frames of GOP `g` among `fs`, in order.
pub open spec fn gop_members(fs: Seq<FrameMetadata>, g: usize) -> Seq<usize>
    decreases fs.len(),
{
    if fs.len() == 0 {
        Seq::empty()
    } else if fs.last().gop_id == g {
        gop_members(fs.drop_last(), g).push(fs.last().frame_number)
    } else {
        gop_members(fs.drop_last(), g)
    }
}

/// Number of GOPs: one more than the GOP of the last keyframe (0 without keyframes).
pub open spec fn gops_of(fs: Seq<FrameMetadata>) -> int
    decreases fs.len(),
{
    if fs.len() == 0 {
        0
    } else if fs.last().is_keyframe {
        fs.last().gop_id + 1
    } else {
        gops_of(fs.drop_last())
    }
}

/// The frames whose numbers are listed in `nums`, skipping numbers past the
/// end of `fs` (frames are looked up by position).
pub open spec fn resolve_frames(fs: Seq<FrameMetadata>, nums: Seq<usize>) -> Seq<FrameMetadata>
    decreases nums.len(),
{
    if nums.len() == 0 {
        Seq::empty()
    } else if nums.last() < fs.len() {
        resolve_frames(fs, nums.drop_last()).push(fs[nums.last() as int])
    } else {
        resolve_frames(fs, nums.drop_last())
    }
}

/// Number of leading entries of `ks` that are at most `n`.
pub open spec fn count_leading_at_most(ks: Seq<usize>, n: usize) -> int
    decreases ks.len(),
{
    if ks.len() == 0 {
        0
    } else if ks[0] <= n {
        1 + count_leading_at_most(ks.drop_first(), n)
    } else {
        0
    }
}

/// `ks` is strictly increasing.
pub open spec fn strictly_increasing(ks: Seq<usize>) -> bool {
    forall|i: int, j: int| 0 <= i < j < ks.len() ==> ks[i] < ks[j]
}

/// The frame at position `n` of `fs`, if any.
pub open spec fn frame_at(fs: Seq<FrameMetadata>, n: int) -> Option<FrameMetadata> {
    if 0 <= n < fs.len() {
        Some(fs[n])
    } else {
        None
    }
}

/// The metadata an optional reference points at.
pub open spec fn deref_opt(o: Option<&FrameMetadata>) -> Option<FrameMetadata> {
    match o {
        Some(r) => Some(*r),
        None => None,
    }
}

/// The keyframe at or before position `n`, found among the keyframe
/// numbers `ks` of `fs` (meaningful when `ks` is increasing).
pub open spec fn keyframe_before(fs: Seq<FrameMetadata>, ks: Seq<usize>, n: usize) -> Option<
    FrameMetadata,
> {
    let c = count_leading_at_most(ks, n);
    if c == 0 {
        None
    } else {
        frame_at(fs, ks[c - 1] as int)
    }
}

/// The leading entries counted by `count_leading_at_most` are exactly those
/// at most `n` when `ks` is increasing.
pub proof fn lemma_count_leading(ks: Seq<usize>, n: usize)
    ensures
        0 <= count_leading_at_most(ks, n) <= ks.len(),
        forall|j: int| 0 <= j < count_leading_at_most(ks, n) ==> ks[j] <= n,
        strictly_increasing(ks) ==> forall|j: int|
            count_leading_at_most(ks, n) <= j < ks.len() ==> ks[j] > n,
    decreases ks.len(),
{
    if ks.len() > 0 {
        let rest = ks.drop_first();
        lemma_count_leading(rest, n);
        assert forall|j: int| 0 <= j < count_leading_at_most(ks, n) implies ks[j] <= n by {
            if j > 0 {
                assert(ks[j] == rest[j - 1]);
            }
        }
        if strictly_increasing(ks) {
            assert(strictly_increasing(rest)) by {
                assert forall|i: int, j: int| 0 <= i < j < rest.len() implies rest[i] < rest[j] by {
                    assert(rest[i] == ks[i + 1] && rest[j] == ks[j + 1]);
                }
            }
            assert forall|j: int| count_leading_at_most(ks, n) <= j < ks.len() implies ks[j] > n by {
                if ks[0] <= n {
                    assert(ks[j] == rest[j - 1]);
                } else if j > 0 {
                    assert(ks[0] < ks[j]);
                }
            }
        }
    }
}

proof fn lemma_resolve_step(fs: Seq<FrameMetadata>, nums: Seq<usize>, i: int)
    requires
        0 <= i < nums.len(),
    ensures
        resolve_frames(fs, nums.take(i + 1)) == if nums[i] < fs.len() {
            resolve_frames(fs, nums.take(i)).push(fs[nums[i] as int])
        } else {
            resolve_frames(fs, nums.take(i))
        },
{
    assert(nums.take(i + 1).drop_last() =~= nums.take(i));
}

/// Cache of all frame metadata for seeking.
///
/// Frames are looked up by position: the frame "number" passed to the
/// lookups is an index into the frames in the order they were added.
#[derive(Clone)]
pub struct FrameMetadataCache {
    frames: Vec<FrameMetadata>,
    keyframe_indices: Vec<usize>,
    gop_frames: HashMap<usize, Vec<usize>>,
    num_gops: usize,
}

impl View for FrameMetadataCache {
    type V = Seq<FrameMetadata>;

    closed spec fn view(&self) -> Seq<FrameMetadata> {
        self.frames@
    }
}

impl FrameMetadataCache {
    /// The derived indexes agree with the frames.
    pub closed spec fn wf(&self) -> bool {
        &&& self.keyframe_indices@ == keyframes_of(self.frames@)
        &&& self.num_gops == gops_of(self.frames@)
        &&& forall|g: usize|
            #![trigger self.gop_frames@.contains_key(g)]
            self.gop_frames@.contains_key(g) <==> gop_members(self.frames@, g).len() > 0
        &&& forall|g: usize|
            #![trigger self.gop_frames@[g]]
            self.gop_frames@.contains_key(g) ==> self.gop_frames@[g]@ == gop_members(
                self.frames@,
                g,
            )
    }

    /// An empty cache.
    pub fn new() -> (c: Self)
        ensures
            c.wf(),
            c@ == Seq::<FrameMetadata>::empty(),
    {
        FrameMetadataCache {
            frames: Vec::new(),
            keyframe_indices: Vec::new(),
            gop_frames: HashMap::new(),
            num_gops: 0,
        }
    }

    /// An empty cache with room for `capacity` frames.
    pub fn with_capacity(capacity: usize) -> (c: Self)
        ensures
            c.wf(),
            c@ == Seq::<FrameMetadata>::empty(),
    {
        FrameMetadataCache {
            frames: Vec::with_capacity(capacity),
            keyframe_indices: Vec::new(),
            gop_frames: HashMap::new(),
            num_gops: 0,
        }
    }

    /// Add a frame to the cache.
    pub fn add_frame(&mut self, metadata: FrameMetadata)
        requires
            old(self).wf(),
            metadata.is_keyframe ==> metadata.gop_id < usize::MAX,
        ensures
            final(self).wf(),
            final(self)@ == old(self)@.push(metadata),
    {
        let ghost old_frames = self.frames@;
        let ghost new_frames = old_frames.push(metadata);
        assert(new_frames.drop_last() =~= old_frames);
        if metadata.is_keyframe {
            self.keyframe_indices.push(metadata.frame_number);
            self.num_gops = metadata.gop_id + 1;
        }
        let mut members: Vec<usize> = match self.gop_frames.remove(&metadata.gop_id) {
            Some(v) => v,
            None => Vec::new(),
        };
        proof {
            if !old(self).gop_frames@.contains_key(metadata.gop_id) {
                assert(gop_members(old_frames, metadata.gop_id).len() == 0);
                assert(gop_members(old_frames, metadata.gop_id) =~= Seq::<usize>::empty());
            }
        }
        members.push(metadata.frame_number);
        self.gop_frames.insert(metadata.gop_id, members);
        self.frames.push(metadata);
        assert forall|g: usize| #![trigger self.gop_frames@.contains_key(g)]
            self.gop_frames@.contains_key(g) <==> gop_members(self.frames@, g).len() > 0 by {
            if g != metadata.gop_id {
                assert(old(self).gop_frames@.contains_key(g) == self.gop_frames@.contains_key(g));
            }
        }
        assert forall|g: usize| #![trigger self.gop_frames@[g]]
            self.gop_frames@.contains_key(g) implies self.gop_frames@[g]@ == gop_members(
                self.frames@,
                g,
            ) by {
            if g != metadata.gop_id {
                assert(old(self).gop_frames@.contains_key(g));
                assert(old(self).gop_frames@[g] == self.gop_frames@[g]);
            }
        }
    }

    /// The metadata of the frame at position `frame_number`.
    pub fn get_frame(&self, frame_number: usize) -> (res: Option<&FrameMetadata>)
        ensures
            frame_number < self@.len() ==> res == Some(&self@[frame_number as int]),
            frame_number >= self@.len() ==> res is None,
    {
        if frame_number < self.frames.len() {
            Some(&self.frames[frame_number])
        } else {
            None
        }
    }

    /// Total number of frames.
    pub fn frame_count(&self) -> (n: usize)
        ensures
            n == self@.len(),
    {
        self.frames.len()
    }

    /// Total number of GOPs.
    pub fn gop_count(&self) -> (n: usize)
        requires
            self.wf(),
        ensures
            n == gops_of(self@),
    {
        self.num_gops
    }

    /// Frame numbers of all keyframes, in the order they were added.
    pub fn keyframe_positions(&self) -> (ks: &[usize])
        requires
            self.wf(),
        ensures
            ks@ == keyframes_of(self@),
    {
        self.keyframe_indices.as_slice()
    }

    /// Whether the frame at position `frame_number` is a keyframe.
    pub fn is_keyframe(&self, frame_number: usize) -> (b: bool)
        ensures
            b == (frame_number < self@.len() && self@[frame_number as int].is_keyframe),
    {
        match self.get_frame(frame_number) {
            Some(f) => f.is_keyframe,
            None => false,
        }
    }

    /// The GOP of the frame at position `frame_number`.
    pub fn get_gop_id(&self, frame_number: usize) -> (g: Option<usize>)
        ensures
            frame_number < self@.len() ==> g == Some(self@[frame_number as int].gop_id),
            frame_number >= self@.len() ==> g is None,
    {
        match self.get_frame(frame_number) {
            Some(f) => Some(f.gop_id),
            None => None,
        }
    }

    /// Number of frames in GOP `gop_id`.
    pub fn get_gop_size(&self, gop_id: usize) -> (n: usize)
        requires
            self.wf(),
        ensures
            n == gop_members(self@, gop_id).len(),
    {
        match self.gop_frames.get(&gop_id) {
            Some(members) => members.len(),
            None => 0,
        }
    }
    /// The keyframe at or before position `frame_number`, by binary search
    /// over the keyframe numbers.
    ///
    /// Any frame returned is a keyframe-list entry at most `frame_number`;
    /// when the keyframe numbers are increasing (as they are for frames
    /// added in stream order) it is the last such keyframe.
    pub fn get_keyframe_before(&self, frame_number: usize) -> (res: Option<&FrameMetadata>)
        requires
            self.wf(),
        ensures
            res matches Some(r) ==> exists|i: int|
                0 <= i < keyframes_of(self@).len() && keyframes_of(self@)[i] <= frame_number
                    && keyframes_of(self@)[i] < self@.len() && *r == self@[keyframes_of(
                    self@,
                )[i] as int],
            strictly_increasing(keyframes_of(self@)) ==> deref_opt(res) == keyframe_before(
                self@,
                keyframes_of(self@),
                frame_number,
            ),
    {
        let ks = &self.keyframe_indices;
        let len = ks.len();
        let ghost sorted = strictly_increasing(ks@);
        let mut lo: usize = 0;
        let mut hi: usize = len;
        while lo < hi
            invariant
                lo <= hi <= len,
                len == ks@.len(),
                sorted == strictly_increasing(ks@),
                sorted ==> forall|j: int| 0 <= j < lo ==> ks@[j] <= frame_number,
                sorted ==> forall|j: int| hi <= j < len ==> ks@[j] > frame_number,
            decreases hi - lo,
        {
            let mid = lo + (hi - lo) / 2;
            if ks[mid] <= frame_number {
                lo = mid + 1;
            } else {
                hi = mid;
            }
        }
        proof {
            lemma_count_leading(ks@, frame_number);
            if sorted {
                let c = count_leading_at_most(ks@, frame_number);
                if c < lo {
                    assert(ks@[c] <= frame_number);
                } else if c > lo {
                    assert(ks@[lo as int] <= frame_number);
                }
                assert(c == lo);
            }
        }
        let idx = if lo > 0 { lo - 1 } else { 0 };
        if idx < len {
            let keyframe_num = ks[idx];
            if keyframe_num <= frame_number {
                return self.get_frame(keyframe_num);
            }
        }
        None
    }

    /// The metadata of every frame of GOP `gop_id`, in the order they were
    /// added; `None` when the GOP has no frames.
    pub fn get_frames_in_gop(&self, gop_id: usize) -> (res: Option<Vec<&FrameMetadata>>)
        requires
            self.wf(),
        ensures
            gop_members(self@, gop_id).len() == 0 ==> res is None,
            gop_members(self@, gop_id).len() > 0 ==> (res matches Some(v) && v.len()
                == resolve_frames(self@, gop_members(self@, gop_id)).len() && forall|i: int|
                0 <= i < v.len() ==> *(#[trigger] v@[i]) == resolve_frames(
                self@,
                gop_members(self@, gop_id),
            )[i]),
    {
        match self.gop_frames.get(&gop_id) {
            None => None,
            Some(nums) => {
                let ghost fs = self.frames@;
                let mut out: Vec<&FrameMetadata> = Vec::new();
                let mut i: usize = 0;
                while i < nums.len()
                    invariant
                        i <= nums.len(),
                        fs == self.frames@,
                        out.len() == resolve_frames(fs, nums@.take(i as int)).len(),
                        forall|k: int|
                            0 <= k < out.len() ==> *(#[trigger] out@[k]) == resolve_frames(
                                fs,
                                nums@.take(i as int),
                            )[k],
                    decreases nums.len() - i,
                {
                    proof {
                        lemma_resolve_step(fs, nums@, i as int);
                    }
                    let num = nums[i];
                    if num < self.frames.len() {
                        out.push(&self.frames[num]);
                    }
                    i = i + 1;
                }
                assert(nums@.take(nums.len() as int) =~= nums@);
                Some(out)
            },
        }
    }
}


impl Default for FrameMetadataCache {
    /// An empty cache.
    fn default() -> (c: Self)
        ensures
            c.wf(),
            c@ == Seq::<FrameMetadata>::empty(),
    {
        Self::new()
    }
}

/// Frames as a full scan of a stream records them: numbered by position,
/// the first frame in GOP 0, and a new GOP opened by every later keyframe.
pub open spec fn stream_ordered(fs: Seq<FrameMetadata>) -> bool {
    &&& forall|i: int| 0 <= i < fs.len() ==> (#[trigger] fs[i]).frame_number == i
    &&& fs.len() > 0 ==> fs[0].gop_id == 0
    &&& forall|i: int|
        0 < i < fs.len() ==> (#[trigger] fs[i]).gop_id == fs[i - 1].gop_id + if fs[i].is_keyframe {
            1int
        } else {
            0int
        }
}

proof fn lemma_stream_ordered_prefix(fs: Seq<FrameMetadata>)
    requires
        stream_ordered(fs),
        fs.len() > 0,
    ensures
        stream_ordered(fs.drop_last()),
{
    let p = fs.drop_last();
    assert forall|i: int| 0 < i < p.len() implies (#[trigger] p[i]).gop_id == p[i - 1].gop_id
        + if p[i].is_keyframe {
        1int
    } else {
        0int
    } by {
        assert(p[i] == fs[i] && p[i - 1] == fs[i - 1]);
    }
}

/// In stream order the keyframe list is increasing and lists exactly the
/// positions of the keyframes.
pub proof fn lemma_stream_ordered_keyframes(fs: Seq<FrameMetadata>)
    requires
        stream_ordered(fs),
    ensures
        strictly_increasing(keyframes_of(fs)),
        forall|i: int|
            0 <= i < keyframes_of(fs).len() ==> #[trigger] keyframes_of(fs)[i] < fs.len()
                && fs[keyframes_of(fs)[i] as int].is_keyframe,
        forall|j: int|
            0 <= j < fs.len() && (#[trigger] fs[j]).is_keyframe ==> keyframes_of(fs).contains(
                j as usize,
            ),
    decreases fs.len(),
{
    if fs.len() > 0 {
        let p = fs.drop_last();
        lemma_stream_ordered_prefix(fs);
        lemma_stream_ordered_keyframes(p);
        let kp = keyframes_of(p);
        let k = keyframes_of(fs);
        assert forall|i: int| 0 <= i < kp.len() implies #[trigger] kp[i] < fs.len() - 1 by {}
        assert forall|j: int| 0 <= j < fs.len() && (#[trigger] fs[j]).is_keyframe implies k.contains(
            j as usize,
        ) by {
            if j < fs.len() - 1 {
                assert(p[j] == fs[j]);
                let w = choose|w: int| 0 <= w < kp.len() && kp[w] == j as usize;
                assert(k[w] == j as usize);
            } else {
                assert(k[k.len() - 1] == j as usize);
            }
        }
    }
}

/// In stream order the GOP of a frame is the GOP of every earlier frame
/// that no keyframe separates from it.
pub proof fn lemma_stream_ordered_same_gop(fs: Seq<FrameMetadata>, k: int, j: int)
    requires
        stream_ordered(fs),
        0 <= k <= j < fs.len(),
        forall|m: int| k < m <= j ==> !(#[trigger] fs[m]).is_keyframe,
    ensures
        fs[j].gop_id == fs[k].gop_id,
    decreases j - k,
{
    if j > k {
        lemma_stream_ordered_same_gop(fs, k, j - 1);
        assert(fs[j].gop_id == fs[j - 1].gop_id + 0int);
    }
}

/// Seeking law: in stream order, for a frame position `n` of the stream the
/// keyframe lookup finds the last keyframe at or before `n`, and that
/// keyframe opens the GOP `n` belongs to; it finds nothing exactly when no
/// frame up to `n` is a keyframe.
pub proof fn lemma_keyframe_before_in_stream(fs: Seq<FrameMetadata>, n: usize)
    requires
        stream_ordered(fs),
        n < fs.len(),
    ensures
        keyframe_before(fs, keyframes_of(fs), n) matches Some(kf) ==> {
            &&& kf.is_keyframe
            &&& kf.frame_number <= n
            &&& forall|m: int| kf.frame_number < m <= n ==> !(#[trigger] fs[m]).is_keyframe
            &&& kf.gop_id == fs[n as int].gop_id
        },
        keyframe_before(fs, keyframes_of(fs), n) is None ==> forall|m: int|
            0 <= m <= n ==> !(#[trigger] fs[m]).is_keyframe,
{
    let ks = keyframes_of(fs);
    lemma_stream_ordered_keyframes(fs);
    lemma_count_leading(ks, n);
    let c = count_leading_at_most(ks, n);
    if c == 0 {
        assert forall|m: int| 0 <= m <= n implies !(#[trigger] fs[m]).is_keyframe by {
            if fs[m].is_keyframe {
                let w = choose|w: int| 0 <= w < ks.len() && ks[w] == m as usize;
                assert(ks[w] > n);
            }
        }
    } else {
        let kn = ks[c - 1] as int;
        assert(fs[kn].frame_number == kn);
        assert forall|m: int| kn < m <= n implies !(#[trigger] fs[m]).is_keyframe by {
            if fs[m].is_keyframe {
                let w = choose|w: int| 0 <= w < ks.len() && ks[w] == m as usize;
                if w < c - 1 {
                    assert(ks[w] < ks[c - 1]);
                } else if w == c - 1 {
                } else {
                    assert(ks[w] > n);
                }
            }
        }
        lemma_stream_ordered_same_gop(fs, kn, n as int);
    }
}

/// The keyframe list holds the frame numbers of the frames that are
/// keyframes, in the order the frames were added.
pub proof fn lemma_keyframes_are_filtered(fs: Seq<FrameMetadata>)
    ensures
        keyframes_of(fs) == fs.filter(|m: FrameMetadata| m.is_keyframe).map_values(
            |m: FrameMetadata| m.frame_number,
        ),
    decreases fs.len(),
{
    reveal(Seq::filter);
    if fs.len() > 0 {
        lemma_keyframes_are_filtered(fs.drop_last());
        assert(keyframes_of(fs) =~= fs.filter(|m: FrameMetadata| m.is_keyframe).map_values(
            |m: FrameMetadata| m.frame_number,
        ));
    }
}

/// The member list of GOP `g` holds the frame numbers of the frames whose
/// GOP id is `g`, in the order the frames were added.
pub proof fn lemma_gop_members_are_filtered(fs: Seq<FrameMetadata>, g: usize)
    ensures
        gop_members(fs, g) == fs.filter(|m: FrameMetadata| m.gop_id == g).map_values(
            |m: FrameMetadata| m.frame_number,
        ),
    decreases fs.len(),
{
    reveal(Seq::filter);
    if fs.len() > 0 {
        lemma_gop_members_are_filtered(fs.drop_last(), g);
        assert(gop_members(fs, g) =~= fs.filter(|m: FrameMetadata| m.gop_id == g).map_values(
            |m: FrameMetadata| m.frame_number,
        ));
    }
}

/// In stream order GOP ids never go down from one frame to a later one.
pub proof fn lemma_stream_ordered_gops_monotonic(fs: Seq<FrameMetadata>, i: int, j: int)
    requires
        stream_ordered(fs),
        0 <= i <= j < fs.len(),
    ensures
        fs[i].gop_id <= fs[j].gop_id,
    decreases j - i,
{
    if i < j {
        lemma_stream_ordered_gops_monotonic(fs, i, j - 1);
        assert(fs[j].gop_id >= fs[j - 1].gop_id);
    }
}

/// GOP count law: in stream order, once any frame is a keyframe the count of
/// GOPs is one more than the GOP id of the last frame, and every frame's GOP
/// id lies below it; with no keyframe at all the count is 0.
pub proof fn lemma_gop_count_in_stream(fs: Seq<FrameMetadata>)
    requires
        stream_ordered(fs),
    ensures
        (exists|i: int| 0 <= i < fs.len() && (#[trigger] fs[i]).is_keyframe) ==> {
            &&& gops_of(fs) == fs.last().gop_id + 1
            &&& forall|i: int| 0 <= i < fs.len() ==> (#[trigger] fs[i]).gop_id < gops_of(fs)
        },
        (forall|i: int| 0 <= i < fs.len() ==> !(#[trigger] fs[i]).is_keyframe) ==> gops_of(fs)
            == 0,
    decreases fs.len(),
{
    if fs.len() > 0 {
        let p = fs.drop_last();
        let n = fs.len() - 1;
        lemma_stream_ordered_prefix(fs);
        lemma_gop_count_in_stream(p);
        if exists|i: int| 0 <= i < fs.len() && (#[trigger] fs[i]).is_keyframe {
            if !fs.last().is_keyframe {
                let w = choose|i: int| 0 <= i < fs.len() && (#[trigger] fs[i]).is_keyframe;
                assert(w < n);
                assert(p[w] == fs[w]);
                assert(fs[n].gop_id == fs[n - 1].gop_id + 0int);
            }
            assert(gops_of(fs) == fs.last().gop_id + 1);
            assert forall|i: int| 0 <= i < fs.len() implies (#[trigger] fs[i]).gop_id < gops_of(
                fs,
            ) by {
                lemma_stream_ordered_gops_monotonic(fs, i, n);
            }
        } else {
            assert forall|i: int| 0 <= i < p.len() implies !(#[trigger] p[i]).is_keyframe by {
                assert(p[i] == fs[i]);
            }
            assert(!fs[n].is_keyframe);
        }
    }
}

/// Appending the next frame of a scan keeps the frames in stream order.
proof fn lemma_stream_ordered_push(before: Seq<FrameMetadata>, m: FrameMetadata)
    requires
        stream_ordered(before),
        m.frame_number == before.len(),
        m.gop_id == if before.len() == 0 {
            0int
        } else if m.is_keyframe {
            before.last().gop_id + 1
        } else {
            before.last().gop_id as int
        },
    ensures
        stream_ordered(before.push(m)),
{
    let fs = before.push(m);
    assert forall|i: int| 0 <= i < fs.len() implies (#[trigger] fs[i]).frame_number == i by {
        if i < before.len() {
            assert(fs[i] == before[i]);
        }
    }
    assert forall|i: int| 0 < i < fs.len() implies (#[trigger] fs[i]).gop_id == fs[i - 1].gop_id
        + if fs[i].is_keyframe {
        1int
    } else {
        0int
    } by {
        if i < before.len() {
            assert(fs[i] == before[i] && fs[i - 1] == before[i - 1]);
        } else {
            assert(fs[i - 1] == before.last());
        }
    }
    if before.len() > 0 {
        assert(fs[0] == before[0]);
    }
}

/// Records the frames of a full scan of a video stream into a metadata
/// cache, numbering them in decode order and opening a new GOP at every
/// keyframe after the first frame.
pub struct MetadataScan {
    frame_number: usize,
    current_gop_id: usize,
}

impl MetadataScan {
    /// The scan is in step with `cache`: it has recorded exactly its frames.
    pub closed spec fn tracks(&self, cache: FrameMetadataCache) -> bool {
        &&& cache.wf()
        &&& stream_ordered(cache@)
        &&& self.frame_number == cache@.len()
        &&& self.current_gop_id == if cache@.len() == 0 {
            0
        } else {
            cache@.last().gop_id
        }
        &&& (self.frame_number == 0 || self.current_gop_id < self.frame_number)
    }

    /// Number of frames recorded so far.
    pub closed spec fn recorded(&self) -> nat {
        self.frame_number as nat
    }

    /// A scan that has recorded nothing.
    pub fn new() -> (s: Self)
        ensures
            s.recorded() == 0,
            forall|c: FrameMetadataCache| c.wf() && c@.len() == 0 ==> s.tracks(c),
    {
        MetadataScan { frame_number: 0, current_gop_id: 0 }
    }

    /// Record the next decoded frame.
    pub fn record_frame(
        &mut self,
        cache: &mut FrameMetadataCache,
        pts: i64,
        timestamp_bits: u64,
        is_keyframe: bool,
        file_offset: Option<i64>,
    )
        requires
            old(self).tracks(*old(cache)),
            old(cache)@.len() < usize::MAX,
        ensures
            final(self).tracks(*final(cache)),
            final(self).recorded() == old(self).recorded() + 1,
            final(cache)@ == old(cache)@.push(
                FrameMetadata {
                    frame_number: old(cache)@.len() as usize,
                    pts,
                    timestamp_bits,
                    is_keyframe,
                    gop_id: (if old(cache)@.len() == 0 {
                        0int
                    } else if is_keyframe {
                        old(cache)@.last().gop_id + 1
                    } else {
                        old(cache)@.last().gop_id as int
                    }) as usize,
                    file_offset,
                },
            ),
    {
        if is_keyframe && self.frame_number > 0 {
            self.current_gop_id = self.current_gop_id + 1;
        }
        let metadata = FrameMetadata {
            frame_number: self.frame_number,
            pts,
            timestamp_bits,
            is_keyframe,
            gop_id: self.current_gop_id,
            file_offset,
        };
        let ghost before = cache@;
        cache.add_frame(metadata);
        self.frame_number = self.frame_number + 1;
        proof {
            lemma_stream_ordered_push(before, metadata);
        }
    }
}

/// What a scan leaves for `gop_count`: once it has recorded a keyframe the
/// cache counts one GOP more than the GOP id of its last frame, every frame
/// lying in a GOP below that count; before any keyframe the count is 0.
pub proof fn lemma_scan_gop_count(scan: MetadataScan, cache: FrameMetadataCache)
    requires
        scan.tracks(cache),
    ensures
        cache.wf(),
        (exists|i: int| 0 <= i < cache@.len() && (#[trigger] cache@[i]).is_keyframe) ==> {
            &&& gops_of(cache@) == cache@.last().gop_id + 1
            &&& forall|i: int| 0 <= i < cache@.len() ==> (#[trigger] cache@[i]).gop_id < gops_of(cache@)
        },
        (forall|i: int| 0 <= i < cache@.len() ==> !(#[trigger] cache@[i]).is_keyframe)
            ==> gops_of(cache@) == 0,
{
    lemma_gop_count_in_stream(cache@);
}

/// A metadata cache filled by a scan holds its frames in stream order, so
/// the seeking law (`lemma_keyframe_before_in_stream`) applies to it.
pub proof fn lemma_scan_stream_ordered(scan: MetadataScan, cache: FrameMetadataCache)
    requires
        scan.tracks(cache),
    ensures
        cache.wf(),
        stream_ordered(cache@),
        scan.recorded() == cache@.len(),
{
}

} // verus!
