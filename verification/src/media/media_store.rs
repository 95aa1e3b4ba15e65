//! Registry of loaded media files and of the workers that serve them.
//!
//! The registry is generic over the file handle `F` and the worker handle
//! `W`; opening files, starting workers, asking them to shut down and
//! waiting for them happen outside, with the values this registry hands
//! back.

use crate::media::media_id::MediaId;
use std::collections::HashMap;
use vstd::prelude::*;

verus! {

broadcast use vstd::std_specs::hash::group_hash_axioms;

/// A loaded media file, ready to be stored: its identifier, its file
/// handle and its worker's handle.
pub struct LoadedMediaData<F, W> {
    pub id: MediaId,
    pub media_file: F,
    pub worker_handle: W,
}

/// What `remove_media` took out of the registry.
pub struct RemovedMedia<F, W> {
    /// The file handle, if the identifier was registered
    pub media_file: Option<F>,
    /// The worker handle, if one was registered
    pub worker_handle: Option<W>,
}

impl<F, W> RemovedMedia<F, W> {
    /// Whether a media file was removed.
    pub fn removed(&self) -> (b: bool)
        ensures
            b == self.media_file is Some,
    {
        self.media_file.is_some()
    }
}

/// Why a media file cannot be loaded.
#[derive(Debug, Clone, Copy, PartialEq, Eq, Structural)]
pub enum LoadError {
    /// The file has neither a video nor an audio stream
    NoStreams,
}

/// The duration a loaded file reports (as the bits of `f64` seconds): its
/// video stream's where it has one, else its audio stream's; a file with
/// neither stream is refused.
pub fn media_duration_bits(video_duration_bits: Option<u64>, audio_duration_bits: Option<u64>) -> (r: Result<u64, LoadError>)
    ensures
        r == match (video_duration_bits, audio_duration_bits) {
            (Some(d), _) => Ok::<u64, LoadError>(d),
            (None, Some(d)) => Ok(d),
            (None, None) => Err(LoadError::NoStreams),
        },
{
    match video_duration_bits {
        Some(d) => Ok(d),
        None => match audio_duration_bits {
            Some(d) => Ok(d),
            None => Err(LoadError::NoStreams),
        },
    }
}

/// The keys of `m`, each once.
fn keys_of<V>(m: &HashMap<u128, V>) -> (ks: Vec<u128>)
    ensures
        ks@.no_duplicates(),
        ks@.to_set() == m@.dom(),
{
    let mut out: Vec<u128> = Vec::new();
    for k in it: m.keys()
        invariant
            it.seq().unref().no_duplicates(),
            it.seq().unref().to_set() == m@.dom(),
            out@ == it.seq().unref().take(it.index()),
            out.len() == it.index(),
            forall|j: int| 0 <= j < it.index() ==> out@[j] == #[trigger] it.seq().unref()[j],
    {
        let ghost keys = it.seq().unref();
        out.push(*k);
        proof {
            assert(keys[it.index()] == *k);
            assert(out@ =~= keys.take(it.index() + 1));
        }
    }
    proof {
        assert(out@.no_duplicates());
        assert forall|x: u128| #[trigger] out@.to_set().contains(x) <==> m@.dom().contains(x) by {
            if m@.dom().contains(x) {
                assert(out@.contains(x));
            }
        }
        assert(out@.to_set() =~= m@.dom());
    }
    out
}

/// The loaded media files by identifier, with their workers' handles.
pub struct MediaStore<F, W> {
    files: HashMap<u128, F>,
    workers: HashMap<u128, W>,
}

impl<F, W> MediaStore<F, W> {
    /// The registered files, by identifier value.
    pub closed spec fn files_spec(&self) -> Map<u128, F> {
        self.files@
    }

    /// The registered worker handles, by identifier value.
    pub closed spec fn workers_spec(&self) -> Map<u128, W> {
        self.workers@
    }

    /// An empty registry.
    pub fn new() -> (s: Self)
        ensures
            s.files_spec() == Map::<u128, F>::empty(),
            s.workers_spec() == Map::<u128, W>::empty(),
    {
        MediaStore { files: HashMap::new(), workers: HashMap::new() }
    }

    /// Register a loaded media file and its worker under its identifier,
    /// replacing what was registered under it.
    pub fn store_loaded_media(&mut self, data: LoadedMediaData<F, W>)
        ensures
            final(self).files_spec() == old(self).files_spec().insert(data.id@, data.media_file),
            final(self).workers_spec() == old(self).workers_spec().insert(data.id@, data.worker_handle),
    {
        let key = data.id.as_u128();
        self.workers.insert(key, data.worker_handle);
        self.files.insert(key, data.media_file);
    }

    /// The media file registered under `id`, if any.
    pub fn get_media(&self, id: &MediaId) -> (r: Option<&F>)
        ensures
            match r {
                Some(f) => self.files_spec().contains_key(id@) && *f == self.files_spec()[id@],
                None => !self.files_spec().contains_key(id@),
            },
    {
        self.files.get(&id.as_u128())
    }

    /// The identifiers of all registered files, each once, in the map's
    /// iteration order.
    pub fn list_media(&self) -> (ids: Vec<MediaId>)
        ensures
            ids.len() == self.files_spec().dom().len(),
            forall|i: int| 0 <= i < ids.len() ==> self.files_spec().contains_key(#[trigger] ids@[i]@),
            forall|i: int, j: int| 0 <= i < j < ids.len() ==> ids@[i]@ != ids@[j]@,
            forall|v: u128| self.files_spec().contains_key(v) ==> exists|i: int| 0 <= i < ids.len() && #[trigger] ids@[i]@ == v,
    {
        let keys = keys_of(&self.files);
        proof {
            keys@.unique_seq_to_set();
        }
        let mut ids: Vec<MediaId> = Vec::new();
        let mut i: usize = 0;
        while i < keys.len()
            invariant
                i <= keys.len(),
                ids.len() == i,
                forall|k: int| 0 <= k < i ==> (#[trigger] ids@[k])@ == keys@[k],
            decreases keys.len() - i,
        {
            ids.push(MediaId::from_u128(keys[i]));
            i = i + 1;
        }
        proof {
            assert forall|k: int| 0 <= k < ids.len() implies self.files_spec().contains_key(#[trigger] ids@[k]@) by {
                assert(keys@.to_set().contains(keys@[k]));
            }
            assert forall|v: u128| self.files_spec().contains_key(v) implies exists|k: int| 0 <= k < ids.len() && #[trigger] ids@[k]@ == v by {
                assert(keys@.to_set().contains(v));
                let k = choose|k: int| 0 <= k < keys.len() && keys@[k] == v;
                assert(ids@[k]@ == v);
            }
        }
        ids
    }

    /// Take the file and the worker registered under `id` out of the
    /// registry; the caller asks the worker to shut down and waits for it.
    pub fn remove_media(&mut self, id: &MediaId) -> (r: RemovedMedia<F, W>)
        ensures
            final(self).files_spec() == old(self).files_spec().remove(id@),
            final(self).workers_spec() == old(self).workers_spec().remove(id@),
            r.media_file == (if old(self).files_spec().contains_key(id@) {
                Some(old(self).files_spec()[id@])
            } else {
                None
            }),
            r.worker_handle == (if old(self).workers_spec().contains_key(id@) {
                Some(old(self).workers_spec()[id@])
            } else {
                None
            }),
    {
        let key = id.as_u128();
        let media_file = self.files.remove(&key);
        let worker_handle = self.workers.remove(&key);
        RemovedMedia { media_file, worker_handle }
    }

    /// Empty the registry, handing back every file and every worker handle
    /// with its identifier (in the maps' iteration orders), for shutting
    /// down and waiting.
    pub fn shutdown(&mut self) -> (r: (Vec<(MediaId, F)>, Vec<(MediaId, W)>))
        ensures
            final(self).files_spec() == Map::<u128, F>::empty(),
            final(self).workers_spec() == Map::<u128, W>::empty(),
            drained(old(self).files_spec(), r.0@),
            drained(old(self).workers_spec(), r.1@),
    {
        let files = drain_entries(&mut self.files);
        let workers = drain_entries(&mut self.workers);
        (files, workers)
    }
}

impl<F, W> Default for MediaStore<F, W> {
    /// An empty registry.
    fn default() -> (s: Self)
        ensures
            s.files_spec() == Map::<u128, F>::empty(),
            s.workers_spec() == Map::<u128, W>::empty(),
    {
        Self::new()
    }
}

/// A stored file is what `get_media` returns for its identifier until it
/// is removed; afterwards `get_media` finds nothing, and other identifiers
/// are untouched throughout.
pub proof fn lemma_store_then_remove<F, W>(
    before: MediaStore<F, W>,
    stored: MediaStore<F, W>,
    removed: MediaStore<F, W>,
    data: LoadedMediaData<F, W>,
)
    requires
        stored.files_spec() == before.files_spec().insert(data.id@, data.media_file),
        removed.files_spec() == stored.files_spec().remove(data.id@),
    ensures
        stored.files_spec().contains_key(data.id@),
        stored.files_spec()[data.id@] == data.media_file,
        !removed.files_spec().contains_key(data.id@),
        forall|v: u128|
            v != data.id@ ==> (#[trigger] removed.files_spec().contains_key(v)
                == before.files_spec().contains_key(v)),
{
}

/// Whether `entries` lists every entry of `m` once, with its identifier.
pub open spec fn drained<V>(m: Map<u128, V>, entries: Seq<(MediaId, V)>) -> bool {
    &&& entries.len() == m.dom().len()
    &&& forall|i: int|
        0 <= i < entries.len() ==> m.contains_key((#[trigger] entries[i]).0@) && entries[i].1 == m[entries[i].0@]
    &&& forall|i: int, j: int| 0 <= i < j < entries.len() ==> (#[trigger] entries[i]).0@ != (#[trigger] entries[j]).0@
}

/// Remove every entry of `m`, returning the entries.
fn drain_entries<V>(m: &mut HashMap<u128, V>) -> (entries: Vec<(MediaId, V)>)
    ensures
        final(m)@ == Map::<u128, V>::empty(),
        drained(old(m)@, entries@),
{
    let keys = keys_of(m);
    let ghost start = m@;
    proof {
        keys@.unique_seq_to_set();
        assert forall|j: int| 0 <= j < keys.len() implies m@.contains_key(#[trigger] keys@[j]) by {
            assert(keys@.to_set().contains(keys@[j]));
        }
    }
    let mut entries: Vec<(MediaId, V)> = Vec::new();
    let mut i: usize = 0;
    while i < keys.len()
        invariant
            keys@.no_duplicates(),
            keys@.to_set() == start.dom(),
            keys.len() == start.dom().len(),
            i <= keys.len(),
            entries.len() == i,
            m@.dom().subset_of(start.dom()),
            forall|j: int| 0 <= j < i ==> !m@.contains_key(#[trigger] keys@[j]),
            forall|j: int|
                i <= j < keys.len() ==> m@.contains_key(#[trigger] keys@[j]) && m@[keys@[j]] == start[keys@[j]],
            forall|k: int|
                0 <= k < i ==> (#[trigger] entries@[k]).0@ == keys@[k] && start.contains_key(keys@[k])
                    && entries@[k].1 == start[keys@[k]],
        decreases keys.len() - i,
    {
        let key = keys[i];
        let ghost before = m@;
        match m.remove(&key) {
            Some(v) => {
                entries.push((MediaId::from_u128(key), v));
            },
            None => {},
        }
        proof {
            assert forall|j: int| i < j < keys.len() implies m@.contains_key(#[trigger] keys@[j]) && m@[keys@[j]] == start[keys@[j]] by {
                assert(keys@[j] != keys@[i as int]);
                assert(before.contains_key(keys@[j]));
            }
        }
        i = i + 1;
    }
    proof {
        assert forall|k: u128| !m@.contains_key(k) by {
            if m@.contains_key(k) {
                assert(keys@.to_set().contains(k));
                let j = choose|j: int| 0 <= j < keys.len() && keys@[j] == k;
                assert(!m@.contains_key(keys@[j]));
            }
        }
        assert(m@ =~= Map::<u128, V>::empty());
        assert forall|a: int, b: int| 0 <= a < b < entries.len() implies (#[trigger] entries@[a]).0@ != (#[trigger] entries@[b]).0@ by {
            assert(keys@[a] != keys@[b]);
        }
    }
    entries
}

} // verus!
