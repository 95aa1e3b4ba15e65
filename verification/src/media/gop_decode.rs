//! Decisions of decoding one GOP: where to seek, which decoded frames to
//! keep, when the GOP is complete, and what is cached and returned.
//!
//! The decoder itself (seeking, reading packets, converting frames) runs
//! outside; it asks `GopDecodePlan` where to seek and hands every decoded
//! frame's metadata to `GopCollector`, which decides what happens next.

use crate::media::frame_cache::{
    frame_len, frames_bytes, gop_stored, lemma_map_sum_empty, lemma_map_sum_insert, lemma_map_sum_nonneg,
    lemma_map_sum_remove, FrameCache,
};
use crate::media::frame_metadata::{gop_members, resolve_frames, FrameMetadata, FrameMetadataCache};
use crate::media::video_frame::VideoFrame;
use std::collections::HashMap;
use vstd::prelude::*;

verus! {

broadcast use vstd::std_specs::hash::group_hash_axioms;

/// Why a GOP cannot be decoded.
#[derive(Debug, Clone, Copy, PartialEq, Eq, Structural)]
pub enum GopDecodeError {
    /// The metadata lists no frames for the GOP
    NotInMetadata,
    /// The GOP's frame numbers resolve to no frames
    NoFrames,
    /// None of the GOP's frames is a keyframe
    NoKeyframe,
}

/// How to position the input before decoding a GOP.
#[derive(Debug, Clone, Copy, PartialEq, Eq, Structural)]
pub enum SeekMethod {
    /// Seek to this byte offset of the file
    ByteOffset(i64),
    /// Seek to this presentation timestamp of the video stream
    StreamPts(i64),
}

/// What decoding a GOP needs to know from the metadata.
#[derive(Debug, Clone, Copy, PartialEq, Eq, Structural)]
pub struct GopDecodePlan {
    /// The GOP to decode
    pub gop_id: usize,
    /// How many frames the metadata lists for it
    pub frame_count: usize,
    /// Presentation timestamp of its first keyframe
    pub keyframe_pts: i64,
    /// File offset of its first keyframe's packet, if known
    pub keyframe_offset: Option<i64>,
}

/// The first keyframe of `s`, if any.
pub open spec fn first_keyframe(s: Seq<FrameMetadata>) -> Option<FrameMetadata>
    decreases s.len(),
{
    if s.len() == 0 {
        None
    } else if s[0].is_keyframe {
        Some(s[0])
    } else {
        first_keyframe(s.drop_first())
    }
}

/// The frames of GOP `gop_id` as the metadata lists them.
pub open spec fn gop_frames_of(fs: Seq<FrameMetadata>, gop_id: usize) -> Seq<FrameMetadata> {
    resolve_frames(fs, gop_members(fs, gop_id))
}

/// The plan for GOP `gop_id` of the stream `fs`, or why there is none.
pub open spec fn gop_plan(fs: Seq<FrameMetadata>, gop_id: usize) -> Result<GopDecodePlan, GopDecodeError> {
    let members = gop_frames_of(fs, gop_id);
    if gop_members(fs, gop_id).len() == 0 {
        Err(GopDecodeError::NotInMetadata)
    } else if members.len() == 0 {
        Err(GopDecodeError::NoFrames)
    } else {
        match first_keyframe(members) {
            None => Err(GopDecodeError::NoKeyframe),
            Some(k) => Ok(
                GopDecodePlan {
                    gop_id,
                    frame_count: members.len() as usize,
                    keyframe_pts: k.pts,
                    keyframe_offset: k.file_offset,
                },
            ),
        }
    }
}

/// The first keyframe is the earliest frame that is a keyframe: if no frame
/// before position `i` is one and frame `i` is, it is frame `i`; if no frame
/// at all is one, there is none.
pub proof fn lemma_first_keyframe_is_earliest(s: Seq<FrameMetadata>, i: int)
    requires
        0 <= i <= s.len(),
        forall|j: int| 0 <= j < i ==> !(#[trigger] s[j]).is_keyframe,
    ensures
        i < s.len() && s[i].is_keyframe ==> first_keyframe(s) == Some(s[i]),
        i == s.len() ==> first_keyframe(s) is None,
    decreases i,
{
    if i > 0 {
        let t = s.drop_first();
        assert forall|j: int| 0 <= j < i - 1 implies !(#[trigger] t[j]).is_keyframe by {
            assert(t[j] == s[j + 1]);
        }
        assert(!s[0].is_keyframe);
        lemma_first_keyframe_is_earliest(t, i - 1);
        if i < s.len() {
            assert(t[i - 1] == s[i]);
        }
    }
}

proof fn lemma_first_keyframe_skip(s: Seq<FrameMetadata>, i: int)
    requires
        0 <= i < s.len(),
    ensures
        first_keyframe(s.subrange(i, s.len() as int)) == if s[i].is_keyframe {
            Some(s[i])
        } else {
            first_keyframe(s.subrange(i + 1, s.len() as int))
        },
{
    let t = s.subrange(i, s.len() as int);
    assert(t[0] == s[i]);
    assert(t.drop_first() =~= s.subrange(i + 1, s.len() as int));
}

/// Find in the metadata the frames of GOP `gop_id` and its first keyframe.
pub fn plan_gop_decode(meta: &FrameMetadataCache, gop_id: usize) -> (r: Result<GopDecodePlan, GopDecodeError>)
    requires
        meta.wf(),
    ensures
        r == gop_plan(meta@, gop_id),
{
    let frames = match meta.get_frames_in_gop(gop_id) {
        None => {
            return Err(GopDecodeError::NotInMetadata);
        },
        Some(v) => v,
    };
    let ghost members = gop_frames_of(meta@, gop_id);
    if frames.len() == 0 {
        return Err(GopDecodeError::NoFrames);
    }
    let mut i: usize = 0;
    assert(members.subrange(0, members.len() as int) =~= members);
    while i < frames.len()
        invariant
            members == gop_frames_of(meta@, gop_id),
            frames.len() == members.len(),
            forall|k: int| 0 <= k < frames.len() ==> *(#[trigger] frames@[k]) == members[k],
            i <= frames.len(),
            first_keyframe(members) == first_keyframe(members.subrange(i as int, members.len() as int)),
        decreases frames.len() - i,
    {
        proof {
            lemma_first_keyframe_skip(members, i as int);
        }
        let f = frames[i];
        if f.is_keyframe {
            return Ok(
                GopDecodePlan {
                    gop_id,
                    frame_count: frames.len(),
                    keyframe_pts: f.pts,
                    keyframe_offset: f.file_offset,
                },
            );
        }
        i = i + 1;
    }
    proof {
        assert(members.subrange(i as int, members.len() as int) =~= Seq::<FrameMetadata>::empty());
    }
    Err(GopDecodeError::NoKeyframe)
}

impl GopDecodePlan {
    /// The seek to try first: by byte offset where the keyframe's offset is
    /// known, else by the keyframe's timestamp.
    pub fn first_seek(&self) -> (m: SeekMethod)
        ensures
            m == match self.keyframe_offset {
                Some(o) => SeekMethod::ByteOffset(o),
                None => SeekMethod::StreamPts(self.keyframe_pts),
            },
    {
        match self.keyframe_offset {
            Some(o) => SeekMethod::ByteOffset(o),
            None => SeekMethod::StreamPts(self.keyframe_pts),
        }
    }

    /// The seek to make after a failed byte seek: by the keyframe's
    /// timestamp.
    pub fn fallback_seek(&self) -> (m: SeekMethod)
        ensures
            m == SeekMethod::StreamPts(self.keyframe_pts),
    {
        SeekMethod::StreamPts(self.keyframe_pts)
    }
}

/// What to do with a decoded frame.
#[derive(Debug, Clone, Copy, PartialEq, Eq, Structural)]
pub enum FrameDecision {
    /// It belongs to the GOP: convert it and keep it as this frame number
    Keep(usize),
    /// It is of an earlier GOP, or matches no metadata: drop it
    Skip,
    /// It is of a later GOP: stop reading frames from the current packet
    PastGop,
}

/// The frames of one GOP collected while decoding.
pub struct GopCollector {
    gop_id: usize,
    expected: usize,
    frames: HashMap<usize, VideoFrame>,
    bytes: usize,
}

impl GopCollector {
    /// The GOP being collected.
    pub closed spec fn gop(&self) -> usize {
        self.gop_id
    }

    /// How many frames complete the GOP.
    pub closed spec fn expected_count(&self) -> usize {
        self.expected
    }

    /// The frames kept so far, by frame number.
    pub closed spec fn kept(&self) -> Map<usize, VideoFrame> {
        self.frames@
    }

    /// The byte count is the size of the kept frames' data.
    pub closed spec fn wf(&self) -> bool {
        &&& self.frames@.dom().finite()
        &&& self.bytes == frames_bytes(self.frames@)
    }

    /// An empty collection for the GOP of `plan`.
    pub fn new(plan: &GopDecodePlan) -> (c: Self)
        ensures
            c.wf(),
            c.gop() == plan.gop_id,
            c.expected_count() == plan.frame_count,
            c.kept() == Map::<usize, VideoFrame>::empty(),
    {
        let frames: HashMap<usize, VideoFrame> = HashMap::new();
        proof {
            assert(frames@ =~= Map::<usize, VideoFrame>::empty());
            lemma_map_sum_empty(frame_len());
        }
        GopCollector { gop_id: plan.gop_id, expected: plan.frame_count, frames, bytes: 0 }
    }

    /// The decision for a decoded frame whose metadata (nearest by
    /// timestamp) is `found`, as (frame number, GOP).
    pub fn classify(&self, found: Option<(usize, usize)>) -> (d: FrameDecision)
        ensures
            d == match found {
                None => FrameDecision::Skip,
                Some((n, g)) => if g == self.gop() {
                    FrameDecision::Keep(n)
                } else if g > self.gop() {
                    FrameDecision::PastGop
                } else {
                    FrameDecision::Skip
                },
            },
    {
        match found {
            None => FrameDecision::Skip,
            Some((n, g)) => {
                if g == self.gop_id {
                    FrameDecision::Keep(n)
                } else if g > self.gop_id {
                    FrameDecision::PastGop
                } else {
                    FrameDecision::Skip
                }
            },
        }
    }

    /// Keep `frame` as frame `frame_number` (a frame kept before under that
    /// number is replaced); `true` once the GOP is complete.
    pub fn keep(&mut self, frame_number: usize, frame: VideoFrame) -> (done: bool)
        requires
            old(self).wf(),
            frames_bytes(old(self).kept()) + frame@.data.len() <= usize::MAX,
        ensures
            final(self).wf(),
            final(self).gop() == old(self).gop(),
            final(self).expected_count() == old(self).expected_count(),
            final(self).kept() == old(self).kept().insert(frame_number, frame),
            done == (final(self).kept().len() >= final(self).expected_count()),
    {
        proof {
            assert forall|f: VideoFrame| #[trigger] frame_len()(f) >= 0 by {}
        }
        let size = frame.data_size();
        let ghost before = self.frames@;
        match self.frames.remove(&frame_number) {
            Some(old_frame) => {
                proof {
                    lemma_map_sum_remove(before, frame_len(), frame_number);
                    lemma_map_sum_nonneg(before.remove(frame_number), frame_len());
                }
                self.bytes = self.bytes - old_frame.data_size();
            },
            None => {
                proof {
                    assert(before.remove(frame_number) =~= before);
                }
            },
        }
        let ghost rest = self.frames@;
        proof {
            lemma_map_sum_nonneg(rest, frame_len());
            lemma_map_sum_insert(rest, frame_len(), frame_number, frame);
            assert(rest.insert(frame_number, frame) =~= before.insert(frame_number, frame));
        }
        self.frames.insert(frame_number, frame);
        self.bytes = self.bytes + size;
        self.frames.len() >= self.expected
    }

    /// Bytes of frame data kept so far.
    pub fn kept_byte_count(&self) -> (n: usize)
        requires
            self.wf(),
        ensures
            n == frames_bytes(self.kept()),
    {
        self.bytes
    }

    /// Whether as many frames as the metadata lists have been kept.
    pub fn is_complete(&self) -> (b: bool)
        ensures
            b == (self.kept().len() >= self.expected_count()),
    {
        self.frames.len() >= self.expected
    }

    /// Number of frames kept.
    pub fn kept_count(&self) -> (n: usize)
        ensures
            n == self.kept().len(),
    {
        self.frames.len()
    }

    /// Store the kept frames in `cache` as the GOP, as `FrameCache::store_gop`
    /// does, and return copies of them ordered by frame number.
    pub fn finish(self, cache: &mut FrameCache) -> (out: Vec<VideoFrame>)
        requires
            old(cache).wf(),
            old(cache).cached_bytes() + frames_bytes(self.kept()) <= usize::MAX,
        ensures
            final(cache).wf(),
            final(cache).max_gops_limit() == old(cache).max_gops_limit(),
            final(cache).max_bytes_limit() == old(cache).max_bytes_limit(),
            gop_stored(
                old(cache).table(),
                old(cache).lru_order(),
                final(cache).table(),
                final(cache).lru_order(),
                self.gop(),
                self.kept(),
                old(cache).max_gops_limit(),
                old(cache).max_bytes_limit(),
            ),
            in_frame_order(self.kept(), out@),
    {
        let ordered = frames_in_order(&self.frames);
        cache.store_gop(self.gop_id, self.frames);
        ordered
    }
}

/// Whether `out` holds copies of the frames of `m` ordered by frame number.
pub open spec fn in_frame_order(m: Map<usize, VideoFrame>, out: Seq<VideoFrame>) -> bool {
    exists|keys: Seq<usize>|
        #![trigger keys.to_set()]
        {
            &&& keys.to_set() == m.dom()
            &&& keys.len() == out.len()
            &&& forall|i: int, j: int| 0 <= i < j < keys.len() ==> keys[i] < keys[j]
            &&& forall|i: int| 0 <= i < out.len() ==> (#[trigger] out[i])@ == m[keys[i]]@
        }
}

/// The keys of `frames`, in increasing order.
fn sorted_keys(frames: &HashMap<usize, VideoFrame>) -> (ks: Vec<usize>)
    ensures
        ks@.to_set() == frames@.dom(),
        forall|i: int, j: int| 0 <= i < j < ks.len() ==> ks[i] < ks[j],
{
    let mut out: Vec<usize> = Vec::new();
    let ghost mut seen: Seq<usize> = Seq::empty();
    for k in it: frames.keys()
        invariant
            it.seq().unref().no_duplicates(),
            it.seq().unref().to_set() == frames@.dom(),
            seen == it.seq().unref().take(it.index()),
            seen.len() == it.index(),
            forall|j: int| 0 <= j < it.index() ==> seen[j] == #[trigger] it.seq().unref()[j],
            out@.to_set() == seen.to_set(),
            forall|a: int, b: int| 0 <= a < b < out.len() ==> out[a] < out[b],
    {
        let ghost keys = it.seq().unref();
        let key = *k;
        proof {
            assert(keys[it.index()] == key);
            assert(!seen.contains(key)) by {
                if seen.contains(key) {
                    let j = choose|j: int| 0 <= j < seen.len() && seen[j] == key;
                    assert(keys[j] == keys[it.index()]);
                }
            }
        }
        let mut p: usize = 0;
        while p < out.len() && out[p] < key
            invariant
                p <= out.len(),
                forall|a: int| 0 <= a < p ==> out[a] < key,
            decreases out.len() - p,
        {
            p = p + 1;
        }
        proof {
            assert(!out@.to_set().contains(key));
            if p < out.len() {
                assert(out[p as int] != key) by {
                    assert(out@.to_set().contains(out[p as int]));
                }
            }
        }
        let ghost before = out@;
        out.insert(p, key);
        proof {
            seen = seen.push(key);
            assert(seen =~= keys.take(it.index() + 1));
            assert(out@ =~= before.subrange(0, p as int).push(key) + before.subrange(p as int, before.len() as int));
            assert forall|x: usize| out@.to_set().contains(x) <==> seen.to_set().contains(x) by {
                if out@.to_set().contains(x) {
                    let j = choose|j: int| 0 <= j < out.len() && out[j] == x;
                    if j < p {
                        assert(before.to_set().contains(before[j]));
                    } else if j > p {
                        assert(before[j - 1] == x);
                        assert(before.to_set().contains(before[j - 1]));
                    } else {
                        assert(seen[seen.len() - 1] == x);
                    }
                }
                if seen.to_set().contains(x) {
                    let j = choose|j: int| 0 <= j < seen.len() && seen[j] == x;
                    if j == seen.len() - 1 {
                        assert(out[p as int] == x);
                    } else {
                        assert(seen.drop_last()[j] == x);
                        assert(seen.drop_last().to_set().contains(x));
                        assert(before.to_set().contains(x));
                        let b = choose|b: int| 0 <= b < before.len() && before[b] == x;
                        if b < p {
                            assert(out[b] == x);
                        } else {
                            assert(out[b + 1] == x);
                        }
                    }
                }
            }
            assert(out@.to_set() =~= seen.to_set());
        }
    }
    proof {
        assert forall|x: usize| #[trigger] seen.to_set().contains(x) <==> frames@.dom().contains(x) by {
            if frames@.dom().contains(x) {
                assert(seen.contains(x));
            }
        }
        assert(seen.to_set() =~= frames@.dom());
    }
    out
}

/// Copies of the frames of `frames`, ordered by frame number.
fn frames_in_order(frames: &HashMap<usize, VideoFrame>) -> (out: Vec<VideoFrame>)
    ensures
        in_frame_order(frames@, out@),
{
    let keys = sorted_keys(frames);
    let mut out: Vec<VideoFrame> = Vec::new();
    let mut i: usize = 0;
    while i < keys.len()
        invariant
            i <= keys.len(),
            keys@.to_set() == frames@.dom(),
            out.len() == i,
            forall|a: int| 0 <= a < i ==> (#[trigger] out@[a])@ == frames@[keys@[a]]@,
        decreases keys.len() - i,
    {
        let k = keys[i];
        proof {
            assert(keys@.to_set().contains(keys@[i as int]));
        }
        match frames.get(&k) {
            Some(f) => {
                out.push(f.duplicate());
            },
            None => {},
        }
        i = i + 1;
    }
    proof {
        assert(keys@.to_set() == frames@.dom());
    }
    out
}

} // verus!
