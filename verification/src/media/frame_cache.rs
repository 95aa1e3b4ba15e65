//! Cache of decoded video frames, organised by GOP, evicting the least
//! recently used GOPs when it needs room.

use crate::media::video_frame::VideoFrame;
use dashmap::DashMap;
use std::collections::HashMap;
use vstd::prelude::*;

verus! {

broadcast use vstd::std_specs::hash::group_hash_axioms;

/// Sum of `f` over the values of a finite map.
pub open spec fn map_sum<V>(m: Map<usize, V>, f: spec_fn(V) -> int) -> int
    decreases m.dom().len(),
    when m.dom().finite()
{
    if m.dom().len() == 0 {
        0
    } else {
        let k = m.dom().choose();
        proof {
            assert(m.dom().contains(k));
            assert(m.remove(k).dom() =~= m.dom().remove(k));
        }
        f(m[k]) + map_sum(m.remove(k), f)
    }
}

/// Removing one key takes its value out of the sum.
pub proof fn lemma_map_sum_remove<V>(m: Map<usize, V>, f: spec_fn(V) -> int, k: usize)
    requires
        m.dom().finite(),
        m.dom().contains(k),
    ensures
        map_sum(m, f) == f(m[k]) + map_sum(m.remove(k), f),
    decreases m.dom().len(),
{
    assert(m.remove(k).dom() =~= m.dom().remove(k));
    let c = m.dom().choose();
    if c != k {
        assert(m.remove(c).dom() =~= m.dom().remove(c));
        lemma_map_sum_remove(m.remove(c), f, k);
        lemma_map_sum_remove(m.remove(k), f, c);
        assert(m.remove(c).remove(k) =~= m.remove(k).remove(c));
    }
}

/// Adding a new key adds its value to the sum.
pub proof fn lemma_map_sum_insert<V>(m: Map<usize, V>, f: spec_fn(V) -> int, k: usize, v: V)
    requires
        m.dom().finite(),
        !m.dom().contains(k),
    ensures
        map_sum(m.insert(k, v), f) == f(v) + map_sum(m, f),
{
    lemma_map_sum_remove(m.insert(k, v), f, k);
    assert(m.insert(k, v).remove(k) =~= m);
}

/// The sum over an empty map is 0.
pub proof fn lemma_map_sum_empty<V>(f: spec_fn(V) -> int)
    ensures
        map_sum(Map::<usize, V>::empty(), f) == 0,
{
    assert(Map::<usize, V>::empty().dom() =~= Set::<usize>::empty());
}

/// The sum of `f` over the values at `keys`.
pub open spec fn keys_sum<V>(m: Map<usize, V>, keys: Seq<usize>, f: spec_fn(V) -> int) -> int
    decreases keys.len(),
{
    if keys.len() == 0 {
        0
    } else {
        keys_sum(m, keys.drop_last(), f) + f(m[keys.last()])
    }
}

proof fn lemma_keys_sum_agree<V>(m1: Map<usize, V>, m2: Map<usize, V>, keys: Seq<usize>, f: spec_fn(V) -> int)
    requires
        forall|i: int| 0 <= i < keys.len() ==> m1[#[trigger] keys[i]] == m2[keys[i]],
    ensures
        keys_sum(m1, keys, f) == keys_sum(m2, keys, f),
    decreases keys.len(),
{
    if keys.len() > 0 {
        let p = keys.drop_last();
        assert forall|i: int| 0 <= i < p.len() implies m1[#[trigger] p[i]] == m2[p[i]] by {
            assert(p[i] == keys[i]);
        }
        lemma_keys_sum_agree(m1, m2, p, f);
        assert(m1[keys[keys.len() - 1]] == m2[keys[keys.len() - 1]]);
    }
}

/// Summing over a duplicate-free list of all the keys gives the map sum.
pub proof fn lemma_keys_sum_is_map_sum<V>(m: Map<usize, V>, keys: Seq<usize>, f: spec_fn(V) -> int)
    requires
        m.dom().finite(),
        keys.no_duplicates(),
        keys.to_set() == m.dom(),
    ensures
        keys_sum(m, keys, f) == map_sum(m, f),
    decreases keys.len(),
{
    if keys.len() == 0 {
        assert(m.dom() =~= Set::<usize>::empty()) by {
            assert forall|k: usize| !m.dom().contains(k) by {
                assert(!keys.to_set().contains(k));
            }
        }
        assert(m.dom().len() == 0);
    } else {
        let k = keys.last();
        let p = keys.drop_last();
        let r = m.remove(k);
        assert(keys.to_set().contains(k)) by {
            assert(keys[keys.len() - 1] == k);
        }
        assert(p.no_duplicates()) by {
            assert forall|i: int, j: int| 0 <= i < p.len() && 0 <= j < p.len() && i != j implies p[i]
                != p[j] by {
                assert(p[i] == keys[i] && p[j] == keys[j]);
            }
        }
        assert(p.to_set() =~= r.dom()) by {
            assert forall|x: usize| p.to_set().contains(x) <==> r.dom().contains(x) by {
                if p.to_set().contains(x) {
                    let i = choose|i: int| 0 <= i < p.len() && p[i] == x;
                    assert(keys[i] == x);
                    assert(i != keys.len() - 1);
                    assert(x != k);
                    assert(keys.to_set().contains(x));
                }
                if r.dom().contains(x) {
                    assert(keys.to_set().contains(x));
                    let i = choose|i: int| 0 <= i < keys.len() && keys[i] == x;
                    assert(i != keys.len() - 1);
                    assert(p[i] == x);
                }
            }
        }
        lemma_keys_sum_is_map_sum(r, p, f);
        assert forall|i: int| 0 <= i < p.len() implies m[#[trigger] p[i]] == r[p[i]] by {
            assert(p[i] == keys[i]);
            assert(i != keys.len() - 1);
        }
        lemma_keys_sum_agree(m, r, p, f);
        lemma_map_sum_remove(m, f, k);
    }
}


/// A sum of non-negative values is non-negative.
pub proof fn lemma_map_sum_nonneg<V>(m: Map<usize, V>, f: spec_fn(V) -> int)
    requires
        m.dom().finite(),
        forall|v: V| #[trigger] f(v) >= 0,
    ensures
        map_sum(m, f) >= 0,
    decreases m.dom().len(),
{
    if m.dom().len() > 0 {
        let k = m.dom().choose();
        assert(m.remove(k).dom() =~= m.dom().remove(k));
        lemma_map_sum_nonneg(m.remove(k), f);
        assert(f(m[k]) >= 0);
    }
}

proof fn lemma_keys_sum_prefix<V>(m: Map<usize, V>, keys: Seq<usize>, f: spec_fn(V) -> int, i: int)
    requires
        0 <= i <= keys.len(),
        forall|v: V| #[trigger] f(v) >= 0,
    ensures
        0 <= keys_sum(m, keys.take(i), f) <= keys_sum(m, keys, f),
    decreases keys.len(),
{
    if i == keys.len() {
        assert(keys.take(i) =~= keys);
        if keys.len() > 0 {
            lemma_keys_sum_prefix(m, keys.drop_last(), f, i - 1);
            assert(keys.drop_last().take(i - 1) =~= keys.drop_last());
            assert(f(m[keys.last()]) >= 0);
        }
    } else {
        lemma_keys_sum_prefix(m, keys.drop_last(), f, i);
        assert(keys.drop_last().take(i) =~= keys.take(i));
        assert(f(m[keys.last()]) >= 0);
    }
}

proof fn lemma_keys_sum_step<V>(m: Map<usize, V>, keys: Seq<usize>, f: spec_fn(V) -> int, i: int)
    requires
        0 <= i < keys.len(),
    ensures
        keys_sum(m, keys.take(i + 1), f) == keys_sum(m, keys.take(i), f) + f(m[keys[i]]),
{
    assert(keys.take(i + 1).drop_last() =~= keys.take(i));
}

/// Byte size of one frame.
pub open spec fn frame_len() -> spec_fn(VideoFrame) -> int {
    |f: VideoFrame| f@.data.len() as int
}

/// Total byte size of the frames of a GOP.
pub open spec fn frames_bytes(frames: Map<usize, VideoFrame>) -> int {
    map_sum(frames, frame_len())
}

/// Byte size of the data of the frames of one cached GOP.
pub open spec fn gop_data_len() -> spec_fn(CachedGop) -> int {
    |g: CachedGop| frames_bytes(g.frames@)
}

/// Total byte size of the data of all cached frames.
pub open spec fn cached_frame_bytes(t: Map<usize, CachedGop>) -> int {
    map_sum(t, gop_data_len())
}

/// Sums of two functions that agree on a map's values are equal.
pub proof fn lemma_map_sum_congruent<V>(m: Map<usize, V>, f: spec_fn(V) -> int, h: spec_fn(V) -> int)
    requires
        m.dom().finite(),
        forall|k: usize| m.contains_key(k) ==> f(#[trigger] m[k]) == h(m[k]),
    ensures
        map_sum(m, f) == map_sum(m, h),
    decreases m.dom().len(),
{
    if m.dom().len() > 0 {
        let k = m.dom().choose();
        assert(m.remove(k).dom() =~= m.dom().remove(k));
        assert forall|j: usize| m.remove(k).contains_key(j) implies f(#[trigger] m.remove(k)[j]) == h(m.remove(k)[j]) by {
            assert(m.contains_key(j));
        }
        lemma_map_sum_congruent(m.remove(k), f, h);
        assert(f(m[k]) == h(m[k]));
    }
}

/// Recorded byte size of one cached GOP.
pub open spec fn gop_len() -> spec_fn(CachedGop) -> int {
    |g: CachedGop| g.size_bytes as int
}

/// Total recorded byte size of the cached GOPs.
pub open spec fn table_bytes(t: Map<usize, CachedGop>) -> int {
    map_sum(t, gop_len())
}

/// Number of frames of one cached GOP.
pub open spec fn gop_frame_count() -> spec_fn(CachedGop) -> int {
    |g: CachedGop| g.frames@.dom().len() as int
}

/// Total number of cached frames.
pub open spec fn table_frames(t: Map<usize, CachedGop>) -> int {
    map_sum(t, gop_frame_count())
}

/// Cached GOP containing its decoded frames.
#[derive(Debug)]
pub struct CachedGop {
    /// GOP ID
    pub gop_id: usize,
    /// All frames in this GOP (frame_number -> frame)
    pub frames: HashMap<usize, VideoFrame>,
    /// Size of the frames' data in bytes
    pub size_bytes: usize,
}

impl CachedGop {
    /// The recorded size is the size of the frames' data.
    pub open spec fn wf(&self) -> bool {
        self.size_bytes == frames_bytes(self.frames@)
    }

    /// A copy of frame `frame_number`, if the GOP holds it.
    fn frame_copy(&self, frame_number: usize) -> (r: Option<VideoFrame>)
        ensures
            r is Some <==> self.frames@.contains_key(frame_number),
            r matches Some(f) ==> f@ == self.frames@[frame_number]@,
    {
        match self.frames.get(&frame_number) {
            Some(f) => Some(f.duplicate()),
            None => None,
        }
    }

    /// Whether the GOP holds frame `frame_number`.
    fn has_frame(&self, frame_number: usize) -> (b: bool)
        ensures
            b == self.frames@.contains_key(frame_number),
    {
        self.frames.contains_key(&frame_number)
    }

    /// Number of frames in the GOP.
    fn frame_count(&self) -> (n: usize)
        ensures
            n == self.frames@.dom().len(),
    {
        self.frames.len()
    }

    /// Copies of all frames of the GOP, in the map's iteration order.
    fn frame_copies(&self) -> (v: Vec<VideoFrame>)
        ensures
            exists|keys: Seq<usize>|
                #![trigger keys.to_set()]
                keys.no_duplicates() && keys.to_set() == self.frames@.dom() && keys.len() == v.len()
                    && forall|i: int| 0 <= i < v.len() ==> (#[trigger] v@[i])@ == self.frames@[keys[i]]@,
    {
        let mut out: Vec<VideoFrame> = Vec::new();
        let ghost mut seen: Seq<usize> = Seq::empty();
        for k in it: self.frames.keys()
            invariant
                it.seq().unref().no_duplicates(),
                it.seq().unref().to_set() == self.frames@.dom(),
                seen == it.seq().unref().take(it.index()),
                out.len() == seen.len(),
                forall|i: int| 0 <= i < out.len() ==> (#[trigger] out@[i])@ == self.frames@[seen[i]]@,
        {
            proof {
                assert(self.frames@.dom().contains(*k)) by {
                    assert(it.seq().unref()[it.index()] == *k);
                }
            }
            match self.frames.get(k) {
                Some(f) => {
                    out.push(f.duplicate());
                },
                None => {},
            }
            proof {
                seen = seen.push(*k);
            }
        }
        out
    }
}

/// `dashmap::DashMap`: a concurrent hash map.
#[verifier::external_type_specification]
#[verifier::external_body]
#[verifier::reject_recursive_types(K)]
#[verifier::reject_recursive_types(V)]
#[verifier::reject_recursive_types(S)]
pub struct ExDashMap<K, V, S>(DashMap<K, V, S>);

/// The GOPs a `DashMap` of cached GOPs holds, by key.
pub uninterp spec fn gop_table(m: DashMap<usize, CachedGop>) -> Map<usize, CachedGop>;

/// `DashMap::new`: an empty map.
#[verifier::external_body]
fn table_new() -> (table: DashMap<usize, CachedGop>)
    ensures
        gop_table(table).dom() == Set::<usize>::empty(),
{
    DashMap::new()
}

/// `DashMap::len`: the number of entries.
#[verifier::external_body]
fn table_len(m: &DashMap<usize, CachedGop>) -> (n: usize)
    ensures
        n == gop_table(*m).dom().len(),
{
    m.len()
}

/// `DashMap::contains_key`.
#[verifier::external_body]
fn table_contains(m: &DashMap<usize, CachedGop>, k: usize) -> (b: bool)
    ensures
        b == gop_table(*m).contains_key(k),
{
    m.contains_key(&k)
}

/// `DashMap::insert`: the entry for `k` becomes `v`.
#[verifier::external_body]
fn table_insert(m: &mut DashMap<usize, CachedGop>, k: usize, v: CachedGop)
    ensures
        gop_table(*final(m)) == gop_table(*old(m)).insert(k, v),
{
    m.insert(k, v);
}

/// `DashMap::remove`: takes the entry for `k` out, returning its value.
#[verifier::external_body]
fn table_remove(m: &mut DashMap<usize, CachedGop>, k: usize) -> (r: Option<CachedGop>)
    ensures
        gop_table(*final(m)) == gop_table(*old(m)).remove(k),
        r == (if gop_table(*old(m)).contains_key(k) {
            Some(gop_table(*old(m))[k])
        } else {
            None
        }),
{
    match m.remove(&k) {
        Some((_, v)) => Some(v),
        None => None,
    }
}

/// `DashMap::clear`: removes every entry.
#[verifier::external_body]
fn table_clear(m: &mut DashMap<usize, CachedGop>)
    ensures
        gop_table(*final(m)).dom() == Set::<usize>::empty(),
{
    m.clear();
}

/// The keys `DashMap::iter` yields, in its order (left open).
#[verifier::external_body]
fn table_keys(m: &DashMap<usize, CachedGop>) -> (ks: Vec<usize>)
    ensures
        ks@.no_duplicates(),
        ks@.to_set() == gop_table(*m).dom(),
{
    m.iter().map(|entry| *entry.key()).collect()
}

/// `DashMap::view` with `CachedGop::frame_copy`.
#[verifier::external_body]
fn table_view_frame(m: &DashMap<usize, CachedGop>, gop_id: usize, frame_number: usize) -> (r: Option<Option<VideoFrame>>)
    ensures
        r is Some <==> gop_table(*m).contains_key(gop_id),
        r matches Some(o) ==> (o is Some <==> gop_table(*m)[gop_id].frames@.contains_key(frame_number)),
        r matches Some(Some(f)) ==> f@ == gop_table(*m)[gop_id].frames@[frame_number]@,
{
    m.view(&gop_id, |_, gop| gop.frame_copy(frame_number))
}

/// `DashMap::view` with `CachedGop::has_frame`.
#[verifier::external_body]
fn table_view_has_frame(m: &DashMap<usize, CachedGop>, gop_id: usize, frame_number: usize) -> (r: Option<bool>)
    ensures
        r is Some <==> gop_table(*m).contains_key(gop_id),
        r matches Some(b) ==> b == gop_table(*m)[gop_id].frames@.contains_key(frame_number),
{
    m.view(&gop_id, |_, gop| gop.has_frame(frame_number))
}

/// `DashMap::view` with `CachedGop::frame_count`.
#[verifier::external_body]
fn table_view_frame_count(m: &DashMap<usize, CachedGop>, gop_id: usize) -> (r: Option<usize>)
    ensures
        r is Some <==> gop_table(*m).contains_key(gop_id),
        r matches Some(n) ==> n == gop_table(*m)[gop_id].frames@.dom().len(),
{
    m.view(&gop_id, |_, gop| gop.frame_count())
}

/// `DashMap::view` with `CachedGop::frame_copies`.
#[verifier::external_body]
fn table_view_frames(m: &DashMap<usize, CachedGop>, gop_id: usize) -> (r: Option<Vec<VideoFrame>>)
    ensures
        r is Some <==> gop_table(*m).contains_key(gop_id),
        r matches Some(v) ==> exists|keys: Seq<usize>|
            #![trigger keys.to_set()]
            keys.no_duplicates() && keys.to_set() == gop_table(*m)[gop_id].frames@.dom()
                && keys.len() == v.len() && forall|i: int|
                0 <= i < v.len() ==> (#[trigger] v@[i])@ == gop_table(*m)[gop_id].frames@[keys[i]]@,
{
    m.view(&gop_id, |_, gop| gop.frame_copies())
}


/// Total size of the frames' data, summed over the keys of the map.
fn frames_size(frames: &HashMap<usize, VideoFrame>) -> (n: usize)
    requires
        frames_bytes(frames@) <= usize::MAX,
    ensures
        n == frames_bytes(frames@),
{
    let mut total: usize = 0;
    let ghost mut seen: Seq<usize> = Seq::empty();
    for k in it: frames.keys()
        invariant
            it.seq().unref().no_duplicates(),
            it.seq().unref().to_set() == frames@.dom(),
            frames_bytes(frames@) <= usize::MAX,
            seen == it.seq().unref().take(it.index()),
            seen.len() == it.index(),
            forall|j: int| 0 <= j < it.index() ==> seen[j] == #[trigger] it.seq().unref()[j],
            total == keys_sum(frames@, seen, frame_len()),
    {
        let ghost keys = it.seq().unref();
        proof {
            assert(keys[it.index()] == *k);
            assert(frames@.dom().contains(*k)) by {
                assert(keys.to_set().contains(*k));
            }
            lemma_keys_sum_step(frames@, keys, frame_len(), it.index());
            lemma_keys_sum_prefix(frames@, keys, frame_len(), it.index() + 1);
            lemma_keys_sum_is_map_sum(frames@, keys, frame_len());
        }
        match frames.get(k) {
            Some(f) => {
                total = total + f.data_size();
            },
            None => {},
        }
        proof {
            seen = seen.push(*k);
            assert(seen =~= keys.take(it.index() + 1));
        }
    }
    proof {
        assert(seen.no_duplicates());
        assert forall|x: usize| #[trigger] seen.to_set().contains(x) <==> frames@.dom().contains(x) by {
            if frames@.dom().contains(x) {
                assert(seen.contains(x));
            }
        }
        assert(seen.to_set() =~= frames@.dom());
        lemma_keys_sum_is_map_sum(frames@, seen, frame_len());
    }
    total
}

/// Cache statistics.
#[derive(Debug, Clone)]
pub struct CacheStats {
    /// Number of cached GOPs
    pub gop_count: usize,
    /// Total number of cached frames
    pub frame_count: usize,
    /// Total cache size in bytes
    pub size_bytes: usize,
    /// Total cache size in megabytes (whole megabytes, rounded down)
    pub size_mb: usize,
}

/// Cache for decoded video frames, organised by GOP, with limits on the
/// number of GOPs and on the bytes of frame data it holds; when a new GOP
/// needs room, the least recently used GOPs are evicted first.
pub struct FrameCache {
    gops: DashMap<usize, CachedGop>,
    max_gops: usize,
    current_size: usize,
    max_size_bytes: u64,
    /// Cached GOP IDs, least recently used first.
    recency: Vec<usize>,
}

/// `order` with `g` taken out, where it occurs.
pub open spec fn without(order: Seq<usize>, g: usize) -> Seq<usize> {
    if order.contains(g) {
        order.remove(order.index_of(g))
    } else {
        order
    }
}

/// `order` with `g` moved (or added) to the most recently used end.
pub open spec fn touched(order: Seq<usize>, g: usize) -> Seq<usize> {
    without(order, g).push(g)
}

/// Taking an ID out of an order without repeats: the rest keeps its order
/// and no repeats, and the ID is gone.
proof fn lemma_without(order: Seq<usize>, g: usize)
    requires
        order.no_duplicates(),
    ensures
        without(order, g).no_duplicates(),
        without(order, g).to_set() == order.to_set().remove(g),
        !without(order, g).contains(g),
        touched(order, g).no_duplicates(),
        touched(order, g).to_set() == order.to_set().insert(g),
{
    let w = without(order, g);
    if order.contains(g) {
        let i = order.index_of(g);
        assert(w =~= order.subrange(0, i) + order.subrange(i + 1, order.len() as int));
        assert forall|a: int, b: int| 0 <= a < w.len() && 0 <= b < w.len() && a != b implies w[a] != w[b] by {
            let oa = if a < i { a } else { a + 1 };
            let ob = if b < i { b } else { b + 1 };
            assert(w[a] == order[oa] && w[b] == order[ob]);
        }
        assert forall|x: usize| w.contains(x) <==> (order.contains(x) && x != g) by {
            if w.contains(x) {
                let a = choose|a: int| 0 <= a < w.len() && w[a] == x;
                let oa = if a < i { a } else { a + 1 };
                assert(order[oa] == x);
                assert(oa != i);
            }
            if order.contains(x) && x != g {
                let b = choose|b: int| 0 <= b < order.len() && order[b] == x;
                assert(b != i);
                if b < i {
                    assert(w[b] == x);
                } else {
                    assert(w[b - 1] == x);
                }
            }
        }
    }
    assert(w.to_set() =~= order.to_set().remove(g));
    let t = touched(order, g);
    assert forall|a: int, b: int| 0 <= a < t.len() && 0 <= b < t.len() && a != b implies t[a] != t[b] by {
        if a < w.len() && b < w.len() {
            assert(t[a] == w[a] && t[b] == w[b]);
        } else if a < w.len() {
            assert(w.contains(t[a]));
        } else if b < w.len() {
            assert(w.contains(t[b]));
        }
    }
    assert(t.to_set() =~= order.to_set().insert(g)) by {
        assert forall|x: usize| t.contains(x) <==> (order.contains(x) || x == g) by {
            if t.contains(x) {
                let a = choose|a: int| 0 <= a < t.len() && t[a] == x;
                if a < w.len() {
                    assert(w[a] == x);
                    assert(w.contains(x));
                }
            }
            if order.contains(x) && x != g {
                assert(w.contains(x));
                let a = choose|a: int| 0 <= a < w.len() && w[a] == x;
                assert(t[a] == x);
            }
            if x == g {
                assert(t[t.len() - 1] == g);
            }
        }
    }
}

/// Where an order without repeats holds `g`, its position of `g` is the
/// one `index_of` names.
proof fn lemma_index_of_unique(order: Seq<usize>, g: usize, i: int)
    requires
        order.no_duplicates(),
        0 <= i < order.len(),
        order[i] == g,
    ensures
        order.contains(g),
        order.index_of(g) == i,
{
    assert(order.contains(g));
}

/// Take `g` out of the order, where it occurs.
fn order_remove(order: &mut Vec<usize>, g: usize)
    requires
        old(order)@.no_duplicates(),
    ensures
        final(order)@ == without(old(order)@, g),
{
    let mut i: usize = 0;
    while i < order.len()
        invariant
            i <= order.len(),
            order@ == old(order)@,
            order@.no_duplicates(),
            forall|j: int| 0 <= j < i ==> order@[j] != g,
        decreases order.len() - i,
    {
        if order[i] == g {
            proof {
                lemma_index_of_unique(order@, g, i as int);
            }
            order.remove(i);
            return;
        }
        i = i + 1;
    }
    proof {
        assert(!order@.contains(g));
    }
}

/// Any one GOP's recorded size is at most the total.
proof fn lemma_gop_within_total(t: Map<usize, CachedGop>, k: usize)
    requires
        t.dom().finite(),
        t.contains_key(k),
    ensures
        t[k].size_bytes <= table_bytes(t),
        table_bytes(t.remove(k)) == table_bytes(t) - t[k].size_bytes,
{
    assert forall|g: CachedGop| #[trigger] gop_len()(g) >= 0 by {}
    lemma_map_sum_remove(t, gop_len(), k);
    lemma_map_sum_nonneg(t.remove(k), gop_len());
}

/// Whether a cache holding the GOPs `t` has room for a new GOP of `size`
/// bytes: fewer than `max_gops` GOPs and the bytes within `max_bytes`.
pub open spec fn has_room(t: Map<usize, CachedGop>, size: int, max_gops: usize, max_bytes: u64) -> bool {
    t.dom().len() < max_gops && table_bytes(t) + size <= max_bytes
}

/// Least-recently-used eviction of the first `k` GOPs of `others` (the
/// other GOPs, least recently used first): before each of them went there
/// was no room, and unless all went, after them there is.
pub open spec fn lru_evicted(
    start: Map<usize, CachedGop>,
    others: Seq<usize>,
    k: int,
    size: int,
    max_gops: usize,
    max_bytes: u64,
) -> bool {
    &&& 0 <= k <= others.len()
    &&& forall|j: int|
        0 <= j < k ==> !has_room(start.restrict((#[trigger] others.skip(j)).to_set()), size, max_gops, max_bytes)
    &&& (k < others.len() ==> has_room(start.restrict(others.skip(k).to_set()), size, max_gops, max_bytes))
}

/// What storing `frames` as GOP `gop_id` leaves behind: the GOP is cached,
/// most recently used, with exactly those frames; the other GOPs are
/// evicted least recently used first, only as long as there is no room
/// for the new GOP, and the rest stay unchanged and in their order; so the
/// limits hold, unless the new GOP is alone in the cache.
pub open spec fn gop_stored(
    before: Map<usize, CachedGop>,
    before_order: Seq<usize>,
    after: Map<usize, CachedGop>,
    after_order: Seq<usize>,
    gop_id: usize,
    frames: Map<usize, VideoFrame>,
    max_gops: usize,
    max_bytes: u64,
) -> bool {
    let start = before.remove(gop_id);
    let others = without(before_order, gop_id);
    &&& after.contains_key(gop_id)
    &&& after[gop_id].gop_id == gop_id
    &&& after[gop_id].frames@ == frames
    &&& forall|g: usize|
        #[trigger] after.contains_key(g) && g != gop_id ==> before.contains_key(g) && after[g] == before[g]
    &&& (after.dom() == set![gop_id] || (after.dom().len() <= max_gops && table_bytes(after)
        <= max_bytes))
    &&& exists|k: int|
        #![trigger others.skip(k)]
        {
            &&& lru_evicted(start, others, k, frames_bytes(frames), max_gops, max_bytes)
            &&& after_order == others.skip(k).push(gop_id)
            &&& after.remove(gop_id) == start.restrict(others.skip(k).to_set())
        }
}

/// A GOP just stored is found again: the cache holds it under its ID with
/// exactly the frames stored, so `get_frame` and `contains_frame` answer
/// for them and nothing else.
pub proof fn lemma_stored_gop_found(
    before: FrameCache,
    after: FrameCache,
    gop_id: usize,
    frames: Map<usize, VideoFrame>,
    frame_number: usize,
)
    requires
        gop_stored(
            before.table(),
            before.lru_order(),
            after.table(),
            after.lru_order(),
            gop_id,
            frames,
            before.max_gops_limit(),
            before.max_bytes_limit(),
        ),
    ensures
        after.table().contains_key(gop_id),
        after.table()[gop_id].frames@.contains_key(frame_number) <==> frames.contains_key(frame_number),
        frames.contains_key(frame_number) ==> after.table()[gop_id].frames@[frame_number] == frames[frame_number],
{
}

/// Least-recently-used eviction: when storing a GOP evicts another GOP, it
/// evicts every GOP used less recently than that one too.
pub proof fn lemma_lru_evicts_older_first(
    before: FrameCache,
    after: FrameCache,
    gop_id: usize,
    frames: Map<usize, VideoFrame>,
    older: int,
    newer: int,
)
    requires
        before.wf(),
        gop_stored(
            before.table(),
            before.lru_order(),
            after.table(),
            after.lru_order(),
            gop_id,
            frames,
            before.max_gops_limit(),
            before.max_bytes_limit(),
        ),
        0 <= older < newer < without(before.lru_order(), gop_id).len(),
        !after.table().contains_key(without(before.lru_order(), gop_id)[newer]),
    ensures
        !after.table().contains_key(without(before.lru_order(), gop_id)[older]),
{
    let others = without(before.lru_order(), gop_id);
    lemma_without(before.lru_order(), gop_id);
    let start = before.table().remove(gop_id);
    let k = choose|k: int|
        #![trigger others.skip(k)]
        {
            &&& lru_evicted(start, others, k, frames_bytes(frames), before.max_gops_limit(), before.max_bytes_limit())
            &&& after.lru_order() == others.skip(k).push(gop_id)
            &&& after.table().remove(gop_id) == start.restrict(others.skip(k).to_set())
        };
    let x = others[newer];
    let y = others[older];
    assert(others.contains(x));
    assert(x != gop_id);
    assert(before.lru_order().to_set().contains(x));
    if newer >= k {
        assert(others.skip(k)[newer - k] == x);
        assert(others.skip(k).to_set().contains(x));
        assert(after.table().remove(gop_id).contains_key(x));
    }
    assert(others.contains(y));
    assert(y != gop_id);
    if after.table().contains_key(y) {
        assert(after.table().remove(gop_id).contains_key(y));
        assert(others.skip(k).to_set().contains(y));
        let a = choose|a: int| 0 <= a < others.skip(k).len() && others.skip(k)[a] == y;
        assert(others[a + k] == y);
    }
}

/// Storing a GOP keeps the cache within its GOP limit and, at the end,
/// within its byte limit, unless the new GOP is the only one left; GOPs it
/// did not evict are unchanged; and the byte count stays the size of the
/// data of all cached frames.
pub proof fn lemma_store_respects_limits(
    before: FrameCache,
    after: FrameCache,
    gop_id: usize,
    frames: Map<usize, VideoFrame>,
)
    requires
        after.wf(),
        gop_stored(
            before.table(),
            before.lru_order(),
            after.table(),
            after.lru_order(),
            gop_id,
            frames,
            before.max_gops_limit(),
            before.max_bytes_limit(),
        ),
    ensures
        after.table().dom() == set![gop_id] || (after.table().dom().len() <= before.max_gops_limit()
            && after.cached_bytes() <= before.max_bytes_limit()),
        after.cached_bytes() == cached_frame_bytes(after.table()),
        forall|g: usize| #[trigger]
            after.table().contains_key(g) && g != gop_id ==> before.table().contains_key(g)
                && after.table()[g] == before.table()[g],
{
    after.lemma_cached_bytes();
}

impl FrameCache {
    /// The cached GOPs by GOP ID.
    pub closed spec fn table(&self) -> Map<usize, CachedGop> {
        gop_table(self.gops)
    }

    /// The cached GOP IDs, least recently used first.
    pub closed spec fn lru_order(&self) -> Seq<usize> {
        self.recency@
    }

    /// The most GOPs the cache keeps.
    pub closed spec fn max_gops_limit(&self) -> usize {
        self.max_gops
    }

    /// The most bytes of frame data the cache keeps (a soft limit: a single
    /// GOP larger than it is still stored).
    pub closed spec fn max_bytes_limit(&self) -> u64 {
        self.max_size_bytes
    }

    /// Bytes of frame data currently held.
    pub closed spec fn cached_bytes(&self) -> usize {
        self.current_size
    }

    /// Every GOP is filed under its own ID with its true size, the byte
    /// count is the sum of the GOP sizes, and the recency order lists each
    /// cached GOP once.
    pub closed spec fn wf(&self) -> bool {
        &&& self.table().dom().finite()
        &&& forall|g: usize| #[trigger]
            self.table().contains_key(g) ==> self.table()[g].gop_id == g && self.table()[g].wf()
        &&& self.current_size == table_bytes(self.table())
        &&& self.recency@.no_duplicates()
        &&& self.recency@.to_set() == self.table().dom()
    }

    /// The byte count of a well-formed cache is the size of the data of all
    /// its frames: every GOP is filed under its own ID and records the size
    /// of its frames' data, and the count sums those sizes. Its recency
    /// order lists each cached GOP once.
    pub proof fn lemma_cached_bytes(&self)
        requires
            self.wf(),
        ensures
            self.cached_bytes() == cached_frame_bytes(self.table()),
            self.cached_bytes() == table_bytes(self.table()),
            forall|g: usize| #[trigger]
                self.table().contains_key(g) ==> self.table()[g].gop_id == g && self.table()[g].wf(),
            self.table().dom().finite(),
            self.lru_order().no_duplicates(),
            self.lru_order().to_set() == self.table().dom(),
    {
        lemma_map_sum_congruent(self.table(), gop_len(), gop_data_len());
    }

    /// Bytes of frame data currently held.
    pub fn size_bytes(&self) -> (n: usize)
        ensures
            n == self.cached_bytes(),
    {
        self.current_size
    }

    /// A cache for at most `max_gops` GOPs and `max_size_mb` megabytes.
    pub fn new(max_gops: usize, max_size_mb: usize) -> (c: Self)
        requires
            max_size_mb * 1024 * 1024 <= u64::MAX,
        ensures
            c.wf(),
            c.table().dom() == Set::<usize>::empty(),
            c.lru_order() == Seq::<usize>::empty(),
            c.max_gops_limit() == max_gops,
            c.max_bytes_limit() == max_size_mb * 1024 * 1024,
            c.cached_bytes() == 0,
    {
        let gops = table_new();
        let recency: Vec<usize> = Vec::new();
        proof {
            assert(gop_table(gops) =~= Map::<usize, CachedGop>::empty());
            lemma_map_sum_empty(gop_len());
            assert(recency@.to_set() =~= Set::<usize>::empty());
        }
        let mb = max_size_mb as u64;
        FrameCache { gops, max_gops, current_size: 0, max_size_bytes: mb * 1024 * 1024, recency }
    }

    /// A cache for 500 GOPs and 5000 MB.
    pub fn default_size() -> (c: Self)
        ensures
            c.wf(),
            c.table().dom() == Set::<usize>::empty(),
            c.lru_order() == Seq::<usize>::empty(),
            c.max_gops_limit() == 500,
            c.max_bytes_limit() == 5000 * 1024 * 1024,
            c.cached_bytes() == 0,
    {
        Self::new(500, 5000)
    }

    /// Mark GOP `gop_id` as the most recently used.
    fn touch(&mut self, gop_id: usize)
        requires
            old(self).wf(),
            old(self).table().contains_key(gop_id),
        ensures
            final(self).wf(),
            final(self).lru_order() == touched(old(self).lru_order(), gop_id),
            final(self).table() == old(self).table(),
            final(self).cached_bytes() == old(self).cached_bytes(),
            final(self).max_gops_limit() == old(self).max_gops_limit(),
            final(self).max_bytes_limit() == old(self).max_bytes_limit(),
    {
        proof {
            lemma_without(self.recency@, gop_id);
        }
        order_remove(&mut self.recency, gop_id);
        self.recency.push(gop_id);
        proof {
            assert(self.recency@.to_set() =~= self.table().dom());
        }
    }

    /// A copy of frame `frame_number` of GOP `gop_id`, if cached; reading a
    /// cached GOP makes it the most recently used.
    pub fn get_frame(&mut self, gop_id: usize, frame_number: usize) -> (r: Option<VideoFrame>)
        requires
            old(self).wf(),
        ensures
            final(self).wf(),
            final(self).table() == old(self).table(),
            final(self).cached_bytes() == old(self).cached_bytes(),
            final(self).max_gops_limit() == old(self).max_gops_limit(),
            final(self).max_bytes_limit() == old(self).max_bytes_limit(),
            final(self).lru_order() == if old(self).table().contains_key(gop_id) {
                touched(old(self).lru_order(), gop_id)
            } else {
                old(self).lru_order()
            },
            r is Some <==> (old(self).table().contains_key(gop_id) && old(self).table()[gop_id].frames@.contains_key(
                frame_number,
            )),
            r matches Some(f) ==> f@ == old(self).table()[gop_id].frames@[frame_number]@,
    {
        match table_view_frame(&self.gops, gop_id, frame_number) {
            Some(found) => {
                self.touch(gop_id);
                found
            },
            None => None,
        }
    }

    /// Copies of all frames of GOP `gop_id`, in no particular order, if
    /// cached; reading a cached GOP makes it the most recently used.
    pub fn get_gop(&mut self, gop_id: usize) -> (r: Option<Vec<VideoFrame>>)
        requires
            old(self).wf(),
        ensures
            final(self).wf(),
            final(self).table() == old(self).table(),
            final(self).cached_bytes() == old(self).cached_bytes(),
            final(self).max_gops_limit() == old(self).max_gops_limit(),
            final(self).max_bytes_limit() == old(self).max_bytes_limit(),
            final(self).lru_order() == if old(self).table().contains_key(gop_id) {
                touched(old(self).lru_order(), gop_id)
            } else {
                old(self).lru_order()
            },
            r is Some <==> old(self).table().contains_key(gop_id),
            r matches Some(v) ==> exists|keys: Seq<usize>|
                #![trigger keys.to_set()]
                keys.no_duplicates() && keys.to_set() == old(self).table()[gop_id].frames@.dom()
                    && keys.len() == v.len() && forall|i: int|
                    0 <= i < v.len() ==> (#[trigger] v@[i])@ == old(self).table()[gop_id].frames@[keys[i]]@,
    {
        let r = table_view_frames(&self.gops, gop_id);
        if r.is_some() {
            self.touch(gop_id);
        }
        r
    }

    /// Whether GOP `gop_id` is cached.
    pub fn contains_gop(&self, gop_id: usize) -> (b: bool)
        ensures
            b == self.table().contains_key(gop_id),
    {
        table_contains(&self.gops, gop_id)
    }

    /// Whether frame `frame_number` of GOP `gop_id` is cached.
    pub fn contains_frame(&self, gop_id: usize, frame_number: usize) -> (b: bool)
        ensures
            b == (self.table().contains_key(gop_id) && self.table()[gop_id].frames@.contains_key(
                frame_number,
            )),
    {
        match table_view_has_frame(&self.gops, gop_id, frame_number) {
            Some(b) => b,
            None => false,
        }
    }

    /// Remove every cached GOP.
    pub fn clear(&mut self)
        requires
            old(self).wf(),
        ensures
            final(self).wf(),
            final(self).table().dom() == Set::<usize>::empty(),
            final(self).lru_order() == Seq::<usize>::empty(),
            final(self).cached_bytes() == 0,
            final(self).max_gops_limit() == old(self).max_gops_limit(),
            final(self).max_bytes_limit() == old(self).max_bytes_limit(),
    {
        table_clear(&mut self.gops);
        self.current_size = 0;
        self.recency = Vec::new();
        proof {
            assert(self.table() =~= Map::<usize, CachedGop>::empty());
            lemma_map_sum_empty(gop_len());
            assert(self.recency@.to_set() =~= Set::<usize>::empty());
        }
    }

    /// Store `frames` as GOP `gop_id`, replacing any GOP cached under that
    /// ID, and evicting the least recently used other GOPs while the cache
    /// is at its GOP limit or the new frames would take it over its byte
    /// limit. The stored GOP becomes the most recently used.
    pub fn store_gop(&mut self, gop_id: usize, frames: HashMap<usize, VideoFrame>)
        requires
            old(self).wf(),
            old(self).cached_bytes() + frames_bytes(frames@) <= usize::MAX,
        ensures
            final(self).wf(),
            final(self).max_gops_limit() == old(self).max_gops_limit(),
            final(self).max_bytes_limit() == old(self).max_bytes_limit(),
            gop_stored(
                old(self).table(),
                old(self).lru_order(),
                final(self).table(),
                final(self).lru_order(),
                gop_id,
                frames@,
                old(self).max_gops_limit(),
                old(self).max_bytes_limit(),
            ),
    {
        let ghost before = self.table();
        let ghost before_order = self.recency@;
        proof {
            assert forall|g: CachedGop| #[trigger] gop_len()(g) >= 0 by {}
            assert forall|g: VideoFrame| #[trigger] frame_len()(g) >= 0 by {}
            lemma_map_sum_nonneg(before, gop_len());
            lemma_map_sum_nonneg(frames@, frame_len());
            lemma_without(before_order, gop_id);
        }
        let size_bytes = frames_size(&frames);
        match table_remove(&mut self.gops, gop_id) {
            Some(old_gop) => {
                proof {
                    lemma_gop_within_total(before, gop_id);
                }
                self.current_size = self.current_size - old_gop.size_bytes;
            },
            None => {
                proof {
                    assert(before.remove(gop_id) =~= before);
                }
            },
        }
        order_remove(&mut self.recency, gop_id);
        let ghost start = self.table();
        let ghost others = self.recency@;
        let ghost mut k: int = 0;
        proof {
            assert(others.skip(0) =~= others);
            assert(self.recency@.to_set() =~= self.table().dom());
        }
        loop
            invariant
                self.table().dom().finite(),
                forall|g: usize| #[trigger]
                    self.table().contains_key(g) ==> self.table()[g].gop_id == g
                        && self.table()[g].wf(),
                self.current_size == table_bytes(self.table()),
                self.current_size + size_bytes <= usize::MAX,
                !self.table().contains_key(gop_id),
                forall|g: usize| #[trigger]
                    self.table().contains_key(g) ==> before.contains_key(g) && self.table()[g]
                        == before[g],
                self.max_gops == old(self).max_gops,
                self.max_size_bytes == old(self).max_size_bytes,
                start == before.remove(gop_id),
                others == without(before_order, gop_id),
                others.no_duplicates(),
                others.to_set() == start.dom(),
                0 <= k <= others.len(),
                self.recency@ == others.skip(k),
                self.recency@.to_set() == self.table().dom(),
                forall|j: int|
                    0 <= j < k ==> !has_room(
                        start.restrict((#[trigger] others.skip(j)).to_set()),
                        size_bytes as int,
                        self.max_gops,
                        self.max_size_bytes,
                    ),
            ensures
                has_room(self.table(), size_bytes as int, self.max_gops, self.max_size_bytes)
                    || self.recency@.len() == 0,
            decreases self.recency@.len(),
        {
            proof {
                assert(self.table() =~= start.restrict(self.recency@.to_set()));
            }
            let n = table_len(&self.gops);
            let total: u64 = self.current_size as u64;
            if n < self.max_gops && total + (size_bytes as u64) <= self.max_size_bytes {
                break;
            }
            if self.recency.len() == 0 {
                break;
            }
            let victim = self.recency[0];
            let ghost t = self.table();
            proof {
                assert(self.recency@.to_set().contains(self.recency@[0]));
                lemma_gop_within_total(t, victim);
                assert(!has_room(start.restrict(others.skip(k).to_set()), size_bytes as int, self.max_gops, self.max_size_bytes));
            }
            let ghost cur = self.recency@;
            self.recency.remove(0);
            match table_remove(&mut self.gops, victim) {
                Some(evicted) => {
                    self.current_size = self.current_size - evicted.size_bytes;
                },
                None => {},
            }
            proof {
                assert(others.skip(k + 1) =~= others.skip(k).remove(0));
                k = k + 1;
                assert(self.recency@.to_set() =~= self.table().dom()) by {
                    assert forall|x: usize| self.recency@.contains(x) <==> self.table().contains_key(x) by {
                        if self.recency@.contains(x) {
                            let a = choose|a: int| 0 <= a < self.recency@.len() && self.recency@[a] == x;
                            assert(cur[a + 1] == x);
                            assert(cur.to_set().contains(x));
                            assert(x != victim);
                        }
                        if self.table().contains_key(x) {
                            assert(t.contains_key(x) && x != victim);
                            assert(cur.to_set().contains(x));
                            let a = choose|a: int| 0 <= a < cur.len() && cur[a] == x;
                            assert(a != 0);
                            assert(self.recency@[a - 1] == x);
                        }
                    }
                }
            }
        }
        let ghost mid = self.table();
        proof {
            assert(mid =~= start.restrict(self.recency@.to_set()));
            if self.recency@.len() == 0 {
                assert(mid.dom() =~= Set::<usize>::empty()) by {
                    assert forall|x: usize| !mid.dom().contains(x) by {
                        if mid.dom().contains(x) {
                            assert(self.recency@.to_set().contains(x));
                        }
                    }
                }
            }
            assert(!self.recency@.contains(gop_id)) by {
                if self.recency@.contains(gop_id) {
                    assert(self.recency@.to_set().contains(gop_id));
                }
            }
        }
        self.current_size = self.current_size + size_bytes;
        table_insert(&mut self.gops, gop_id, CachedGop { gop_id, frames, size_bytes });
        self.recency.push(gop_id);
        proof {
            lemma_map_sum_insert(mid, gop_len(), gop_id, CachedGop { gop_id, frames, size_bytes });
            if mid.dom() == Set::<usize>::empty() {
                assert(self.table().dom() =~= set![gop_id]);
            } else {
                assert(self.table().dom() =~= mid.dom().insert(gop_id));
            }
            assert(self.table().remove(gop_id) =~= mid);
            assert(self.recency@.to_set() =~= self.table().dom()) by {
                assert forall|x: usize| self.recency@.contains(x) <==> self.table().contains_key(x) by {
                    if self.recency@.contains(x) {
                        let a = choose|a: int| 0 <= a < self.recency@.len() && self.recency@[a] == x;
                        if a < self.recency@.len() - 1 {
                            assert(others.skip(k)[a] == x);
                            assert(others.skip(k).to_set().contains(x));
                        }
                    }
                    if self.table().contains_key(x) && x != gop_id {
                        assert(mid.contains_key(x));
                        assert(others.skip(k).to_set().contains(x));
                        let a = choose|a: int| 0 <= a < others.skip(k).len() && others.skip(k)[a] == x;
                        assert(self.recency@[a] == x);
                    }
                    if x == gop_id {
                        assert(self.recency@[self.recency@.len() - 1] == gop_id);
                    }
                }
            }
            assert forall|a: int, b: int| 0 <= a < self.recency@.len() && 0 <= b < self.recency@.len() && a != b implies self.recency@[a] != self.recency@[b] by {
                if a < self.recency@.len() - 1 && b < self.recency@.len() - 1 {
                    assert(others.skip(k)[a] == self.recency@[a] && others.skip(k)[b] == self.recency@[b]);
                    assert(others[a + k] != others[b + k]);
                } else if a < self.recency@.len() - 1 {
                    assert(others.skip(k).contains(self.recency@[a]));
                } else if b < self.recency@.len() - 1 {
                    assert(others.skip(k).contains(self.recency@[b]));
                }
            }
            assert(lru_evicted(start, others, k, frames_bytes(frames@), self.max_gops, self.max_size_bytes));
            let w = without(before_order, gop_id);
            assert(w.skip(k) == others.skip(k));
            assert(self.recency@ == w.skip(k).push(gop_id));
            assert(self.table().remove(gop_id) == before.remove(gop_id).restrict(w.skip(k).to_set()));
            assert(lru_evicted(before.remove(gop_id), w, k, frames_bytes(frames@), self.max_gops, self.max_size_bytes));
        }
    }

    /// Store one frame: it joins GOP `gop_id` when that GOP is cached and
    /// lacks frame `frame_number` (a frame already there is kept), the GOP
    /// becoming the most recently used; otherwise it becomes a GOP of its
    /// own, stored as `store_gop` does.
    pub fn store_frame(&mut self, gop_id: usize, frame_number: usize, frame: VideoFrame)
        requires
            old(self).wf(),
            old(self).cached_bytes() + frame@.data.len() <= usize::MAX,
        ensures
            final(self).wf(),
            final(self).max_gops_limit() == old(self).max_gops_limit(),
            final(self).max_bytes_limit() == old(self).max_bytes_limit(),
            old(self).table().contains_key(gop_id) ==> {
                &&& final(self).table().dom() == old(self).table().dom()
                &&& final(self).lru_order() == touched(old(self).lru_order(), gop_id)
                &&& forall|g: usize| #[trigger]
                    final(self).table().contains_key(g) && g != gop_id ==> final(self).table()[g]
                        == old(self).table()[g]
                &&& final(self).table()[gop_id].frames@ == if old(self).table()[gop_id].frames@.contains_key(
                    frame_number,
                ) {
                    old(self).table()[gop_id].frames@
                } else {
                    old(self).table()[gop_id].frames@.insert(frame_number, frame)
                }
            },
            !old(self).table().contains_key(gop_id) ==> gop_stored(
                old(self).table(),
                old(self).lru_order(),
                final(self).table(),
                final(self).lru_order(),
                gop_id,
                map![frame_number => frame],
                old(self).max_gops_limit(),
                old(self).max_bytes_limit(),
            ),
    {
        let frame_size = frame.data_size();
        if table_contains(&self.gops, gop_id) {
            let ghost before = self.table();
            proof {
                lemma_gop_within_total(before, gop_id);
            }
            match table_remove(&mut self.gops, gop_id) {
                Some(mut gop) => {
                    let ghost rest = self.table();
                    if !gop.frames.contains_key(&frame_number) {
                        proof {
                            lemma_map_sum_insert(gop.frames@, frame_len(), frame_number, frame);
                        }
                        gop.frames.insert(frame_number, frame);
                        gop.size_bytes = gop.size_bytes + frame_size;
                        self.current_size = self.current_size + frame_size;
                    }
                    proof {
                        lemma_map_sum_insert(rest, gop_len(), gop_id, gop);
                    }
                    table_insert(&mut self.gops, gop_id, gop);
                    proof {
                        assert(self.table().dom() =~= before.dom());
                        assert(rest.insert(gop_id, gop) =~= self.table());
                    }
                    self.touch(gop_id);
                },
                None => {},
            }
        } else {
            let mut frames: HashMap<usize, VideoFrame> = HashMap::new();
            frames.insert(frame_number, frame);
            proof {
                assert(frames@ =~= map![frame_number => frame]);
                lemma_map_sum_empty(frame_len());
                lemma_map_sum_insert(Map::<usize, VideoFrame>::empty(), frame_len(), frame_number, frame);
                assert(Map::<usize, VideoFrame>::empty().insert(frame_number, frame) =~= frames@);
            }
            self.store_gop(gop_id, frames);
        }
    }

    /// Counts of the cached GOPs, frames and bytes.
    pub fn stats(&self) -> (s: CacheStats)
        requires
            self.wf(),
            table_frames(self.table()) <= usize::MAX,
        ensures
            s.gop_count == self.table().dom().len(),
            s.frame_count == table_frames(self.table()),
            s.size_bytes == self.cached_bytes(),
            s.size_mb == self.cached_bytes() / 1048576usize,
    {
        let gop_count = table_len(&self.gops);
        let keys = table_keys(&self.gops);
        let ghost t = self.table();
        proof {
            assert forall|g: CachedGop| #[trigger] gop_frame_count()(g) >= 0 by {}
            lemma_keys_sum_is_map_sum(t, keys@, gop_frame_count());
        }
        let mut frame_count: usize = 0;
        let mut i: usize = 0;
        while i < keys.len()
            invariant
                t == self.table(),
                i <= keys.len(),
                keys@.to_set() == t.dom(),
                keys_sum(t, keys@, gop_frame_count()) == table_frames(t),
                table_frames(t) <= usize::MAX,
                forall|g: CachedGop| #[trigger] gop_frame_count()(g) >= 0,
                frame_count == keys_sum(t, keys@.take(i as int), gop_frame_count()),
            decreases keys.len() - i,
        {
            let k = keys[i];
            proof {
                assert(t.contains_key(k)) by {
                    assert(keys@.to_set().contains(keys@[i as int]));
                }
                lemma_keys_sum_step(t, keys@, gop_frame_count(), i as int);
                lemma_keys_sum_prefix(t, keys@, gop_frame_count(), i + 1);
            }
            match table_view_frame_count(&self.gops, k) {
                Some(n) => {
                    frame_count = frame_count + n;
                },
                None => {},
            }
            i = i + 1;
        }
        proof {
            assert(keys@.take(keys.len() as int) =~= keys@);
        }
        let size_bytes = self.current_size;
        CacheStats { gop_count, frame_count, size_bytes, size_mb: size_bytes / (1024 * 1024) }
    }
}

impl Default for FrameCache {
    /// The cache of `FrameCache::default_size`.
    fn default() -> (c: Self)
        ensures
            c.wf(),
            c.table().dom() == Set::<usize>::empty(),
            c.lru_order() == Seq::<usize>::empty(),
            c.max_gops_limit() == 500,
            c.max_bytes_limit() == 5000 * 1024 * 1024,
            c.cached_bytes() == 0,
    {
        Self::default_size()
    }
}

} // verus!
