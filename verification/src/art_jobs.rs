//! The artwork work list behind the library views: which files' covers are
//! queued and which have been asked about, which album each file is on, and
//! which rows a cover that arrives is written into.
use vstd::prelude::*;
use crate::library::{album_cover_sources, cover_sources_of, sources_view};
use crate::art::{clear_folder_art_cache, without_key, FolderArt, FolderArtCache};
use crate::image_cache::UiImageCache;
use crate::library::{album_image_key, index_rows, row_map, rows_with};
use crate::memo::KeyedMemo;
use crate::model::Track;

verus! {

/// How many artwork workers run on a machine with `cores` cores (2 when
/// unknown): one fewer than the cores, so the interface keeps one, but at
/// least one and at most four.
pub fn worker_count(cores: Option<usize>) -> (r: usize)
    ensures
        ({
            let c: int = match cores {
                Some(n) => n as int,
                None => 2,
            };
            r == if c - 1 < 1 {
                1
            } else if c - 1 > 4 {
                4
            } else {
                c - 1
            }
        }),
{
    let c = match cores {
        Some(n) => n,
        None => 2,
    };
    let spare = if c > 0 {
        c - 1
    } else {
        0
    };
    if spare < 1 {
        1
    } else if spare > 4 {
        4
    } else {
        spare
    }
}

/// One file whose artwork is to be read: the key its result is kept under,
/// the file, and the audio file's stamp.
pub struct ArtJob {
    pub key: String,
    pub path: String,
    pub stamp: u64,
}

pub type JobView = (Seq<char>, Seq<char>, u64);

pub open spec fn job_view(j: ArtJob) -> JobView {
    (j.key@, j.path@, j.stamp)
}

pub open spec fn jobs_view(s: Seq<ArtJob>) -> Seq<JobView> {
    Seq::new(s.len(), |i: int| job_view(s[i]))
}

/// The queue and the questions already asked, as a request changes them: a
/// file with no path, or a key already asked about at that stamp, changes
/// nothing; otherwise the job joins the front (urgent) or the back.
pub open spec fn requested(
    queue: Seq<JobView>,
    seen: Set<(Seq<char>, u64)>,
    key: Seq<char>,
    path: Seq<char>,
    stamp: u64,
    urgent: bool,
) -> (Seq<JobView>, Set<(Seq<char>, u64)>) {
    if path.len() == 0 || seen.contains((key, stamp)) {
        (queue, seen)
    } else if urgent {
        (seq![(key, path, stamp)] + queue, seen.insert((key, stamp)))
    } else {
        (queue.push((key, path, stamp)), seen.insert((key, stamp)))
    }
}

/// Jobs waiting, first to be taken first, and every key and stamp ever
/// queued since the last reset.
pub struct ArtQueue {
    queue: Vec<ArtJob>,
    seen: Vec<(String, u64)>,
}

impl ArtQueue {
    pub closed spec fn spec_queue(&self) -> Seq<JobView> {
        jobs_view(self.queue@)
    }

    pub closed spec fn spec_seen(&self) -> Set<(Seq<char>, u64)> {
        Set::new(|q: (Seq<char>, u64)| exists|i: int| 0 <= i < self.seen@.len() && self.seen@[i].0@ == q.0 && self.seen@[i].1 == q.1)
    }

    pub fn new() -> (r: Self)
        ensures
            r.spec_queue() == Seq::<JobView>::empty(),
            r.spec_seen() == Set::<(Seq<char>, u64)>::empty(),
    {
        let r = ArtQueue { queue: Vec::new(), seen: Vec::new() };
        assert(r.spec_queue() =~= Seq::<JobView>::empty());
        assert(r.spec_seen() =~= Set::<(Seq<char>, u64)>::empty());
        r
    }

    fn was_seen(&self, key: &str, stamp: u64) -> (r: bool)
        ensures
            r == self.spec_seen().contains((key@, stamp)),
    {
        let wanted = key.to_string();
        let mut i: usize = 0;
        while i < self.seen.len()
            invariant
                i <= self.seen@.len(),
                wanted@ == key@,
                forall|j: int| 0 <= j < i ==> !(self.seen@[j].0@ == key@ && self.seen@[j].1 == stamp),
            decreases self.seen.len() - i,
        {
            if self.seen[i].1 == stamp && self.seen[i].0 == wanted {
                assert(self.spec_seen().contains((key@, stamp)));
                return true;
            }
            i += 1;
        }
        false
    }

    /// Queues the artwork of `path` under `key` at `stamp`, unless that was
    /// asked for already; `urgent` puts it first. Whether it was queued.
    pub fn request(&mut self, key: &str, path: &str, stamp: u64, urgent: bool) -> (r: bool)
        ensures
            (final(self).spec_queue(), final(self).spec_seen()) == requested(
                old(self).spec_queue(),
                old(self).spec_seen(),
                key@,
                path@,
                stamp,
                urgent,
            ),
            r == (path@.len() > 0 && !old(self).spec_seen().contains((key@, stamp))),
    {
        if path.is_empty() || self.was_seen(key, stamp) {
            return false;
        }
        let ghost seen0 = self.spec_seen();
        self.seen.push((key.to_string(), stamp));
        assert(self.spec_seen() =~= seen0.insert((key@, stamp))) by {
            assert forall|q: (Seq<char>, u64)| self.spec_seen().contains(q) <==> seen0.insert((key@, stamp)).contains(q) by {
                if seen0.contains(q) {
                    let i = choose|i: int| 0 <= i < old(self).seen@.len() && old(self).seen@[i].0@ == q.0 && old(self).seen@[i].1 == q.1;
                    assert(self.seen@[i] == old(self).seen@[i]);
                }
                if q == (key@, stamp) {
                    assert(self.seen@[old(self).seen@.len() as int].0@ == key@);
                }
                if self.spec_seen().contains(q) {
                    let i = choose|i: int| 0 <= i < self.seen@.len() && self.seen@[i].0@ == q.0 && self.seen@[i].1 == q.1;
                    if i < old(self).seen@.len() {
                        assert(self.seen@[i] == old(self).seen@[i]);
                    }
                }
            }
        }
        let job = ArtJob { key: key.to_string(), path: path.to_string(), stamp };
        let ghost queue0 = self.spec_queue();
        if urgent {
            self.queue.insert(0, job);
            assert(self.spec_queue() =~= seq![(key@, path@, stamp)] + queue0);
        } else {
            self.queue.push(job);
            assert(self.spec_queue() =~= queue0.push((key@, path@, stamp)));
        }
        true
    }

    /// Whether no job is waiting.
    pub fn is_empty(&self) -> (r: bool)
        ensures
            r == (self.spec_queue().len() == 0),
    {
        self.queue.len() == 0
    }

    /// Takes the first job, if any.
    pub fn next_job(&mut self) -> (r: Option<ArtJob>)
        ensures
            final(self).spec_seen() == old(self).spec_seen(),
            old(self).spec_queue().len() == 0 ==> r is None && final(self).spec_queue() == old(self).spec_queue(),
            old(self).spec_queue().len() > 0 ==> r is Some && job_view(r->0) == old(self).spec_queue()[0]
                && final(self).spec_queue() == old(self).spec_queue().drop_first(),
    {
        if self.queue.len() == 0 {
            return None;
        }
        let ghost queue0 = self.spec_queue();
        let job = self.queue.remove(0);
        assert(self.spec_queue() =~= queue0.drop_first());
        Some(job)
    }

    /// Forgets every job and every question asked: after a scan, files and
    /// the covers beside them may have changed.
    pub fn reset(&mut self)
        ensures
            final(self).spec_queue() == Seq::<JobView>::empty(),
            final(self).spec_seen() == Set::<(Seq<char>, u64)>::empty(),
    {
        self.queue.clear();
        self.seen.clear();
        assert(self.spec_queue() =~= Seq::<JobView>::empty());
        assert(self.spec_seen() =~= Set::<(Seq<char>, u64)>::empty());
    }
}

/// The same file at the same stamp is queued once; a file at a new stamp is
/// queued again.
pub proof fn only_a_changed_file_is_read_again(
    queue: Seq<JobView>,
    seen: Set<(Seq<char>, u64)>,
    path: Seq<char>,
    stamp: u64,
    other_stamp: u64,
)
    requires
        path.len() > 0,
        !seen.contains((path, stamp)),
        other_stamp != stamp,
        !seen.contains((path, other_stamp)),
    ensures
        ({
            let once = requested(queue, seen, path, path, stamp, false);
            let twice = requested(once.0, once.1, path, path, stamp, false);
            let changed = requested(once.0, once.1, path, path, other_stamp, false);
            &&& once.0.len() == queue.len() + 1
            &&& twice == once
            &&& changed.0.len() == queue.len() + 2
        }),
{
}

/// The stamp the artwork index keys a track by: its modification time in
/// whole seconds, 0 when unknown.
pub open spec fn stamp_of(t: Track) -> u64 {
    match t.mtime_ms {
        Some(ms) => ms / 1000,
        None => 0,
    }
}

pub fn art_stamp(track: &Track) -> (r: u64)
    ensures
        r == stamp_of(*track),
{
    match track.mtime_ms {
        Some(ms) => ms / 1000,
        None => 0,
    }
}

/// What a list of requests, in order, does to a queue.
pub open spec fn after_requests(
    queue: Seq<JobView>,
    seen: Set<(Seq<char>, u64)>,
    reqs: Seq<(Seq<char>, u64, bool)>,
) -> (Seq<JobView>, Set<(Seq<char>, u64)>)
    decreases reqs.len(),
{
    if reqs.len() == 0 {
        (queue, seen)
    } else {
        let before = after_requests(queue, seen, reqs.drop_last());
        let r = reqs.last();
        requested(before.0, before.1, r.0, r.0, r.1, r.2)
    }
}

/// The requests that index a library: each album's first track, urgently,
/// the last album first so that the first ends up in front; then every track
/// in library order.
pub open spec fn index_requests(sources: Seq<(Seq<char>, Track)>, tracks: Seq<Track>) -> Seq<(Seq<char>, u64, bool)> {
    Seq::new(
        sources.len(),
        |i: int| (sources[sources.len() - 1 - i].1.audio_path@, stamp_of(sources[sources.len() - 1 - i].1), true),
    ) + Seq::new(tracks.len(), |i: int| (tracks[i].audio_path@, stamp_of(tracks[i]), false))
}

proof fn lemma_requests_are_seen(queue: Seq<JobView>, seen: Set<(Seq<char>, u64)>, reqs: Seq<(Seq<char>, u64, bool)>)
    ensures
        forall|i: int|
            0 <= i < reqs.len() && (#[trigger] reqs[i]).0.len() > 0 ==> after_requests(queue, seen, reqs).1.contains(
                (reqs[i].0, reqs[i].1),
            ),
    decreases reqs.len(),
{
    if reqs.len() > 0 {
        let before = reqs.drop_last();
        lemma_requests_are_seen(queue, seen, before);
        let mid = after_requests(queue, seen, before);
        assert forall|i: int| 0 <= i < reqs.len() && (#[trigger] reqs[i]).0.len() > 0 implies after_requests(
            queue,
            seen,
            reqs,
        ).1.contains((reqs[i].0, reqs[i].1)) by {
            if i < reqs.len() - 1 {
                assert(before[i] == reqs[i]);
                assert(mid.1.contains((reqs[i].0, reqs[i].1)));
            }
        }
    }
}

proof fn lemma_seen_requests_change_nothing(
    queue: Seq<JobView>,
    seen: Set<(Seq<char>, u64)>,
    reqs: Seq<(Seq<char>, u64, bool)>,
)
    requires
        forall|i: int| 0 <= i < reqs.len() ==> (#[trigger] reqs[i]).0.len() == 0 || seen.contains((reqs[i].0, reqs[i].1)),
    ensures
        after_requests(queue, seen, reqs) == (queue, seen),
    decreases reqs.len(),
{
    if reqs.len() > 0 {
        let before = reqs.drop_last();
        assert forall|i: int| 0 <= i < before.len() implies (#[trigger] before[i]).0.len() == 0 || seen.contains(
            (before[i].0, before[i].1),
        ) by {
            assert(before[i] == reqs[i]);
        }
        lemma_seen_requests_change_nothing(queue, seen, before);
        assert(reqs.last() == reqs[reqs.len() - 1]);
    }
}

/// Asking for the same artwork a second time queues nothing more: after a
/// list of requests, the same list again changes neither the queue nor the
/// questions asked. (Indexing a library twice is such a pair of lists.)
pub proof fn asking_again_queues_nothing(
    queue: Seq<JobView>,
    seen: Set<(Seq<char>, u64)>,
    reqs: Seq<(Seq<char>, u64, bool)>,
)
    ensures
        ({
            let once = after_requests(queue, seen, reqs);
            after_requests(once.0, once.1, reqs) == once
        }),
{
    let once = after_requests(queue, seen, reqs);
    lemma_requests_are_seen(queue, seen, reqs);
    lemma_seen_requests_change_nothing(once.0, once.1, reqs);
}

/// Queues the artwork of every track of the library, album covers first,
/// keyed by each audio file's path.
pub fn index_library_art(tracks: &[Track], queue: &mut ArtQueue)
    ensures
        exists|sources: Seq<(Seq<char>, Track)>|
            cover_sources_of(tracks@, sources) && (final(queue).spec_queue(), final(queue).spec_seen())
                == after_requests(old(queue).spec_queue(), old(queue).spec_seen(), index_requests(sources, tracks@)),
{
    let sources = album_cover_sources(tracks);
    let ghost sv = sources_view(sources@);
    let ghost reqs = index_requests(sv, tracks@);
    let ghost start = (queue.spec_queue(), queue.spec_seen());
    let mut k: usize = 0;
    while k < sources.len()
        invariant
            k <= sources@.len(),
            sv == sources_view(sources@),
            reqs == index_requests(sv, tracks@),
            start == (old(queue).spec_queue(), old(queue).spec_seen()),
            (queue.spec_queue(), queue.spec_seen()) == after_requests(start.0, start.1, reqs.take(k as int)),
        decreases sources.len() - k,
    {
        let t = &sources[sources.len() - 1 - k].1;
        let stamp = art_stamp(t);
        proof {
            assert(reqs.take(k + 1).drop_last() =~= reqs.take(k as int));
            assert(reqs.take(k + 1).last() == reqs[k as int]);
        }
        queue.request(t.audio_path.as_str(), t.audio_path.as_str(), stamp, true);
        k += 1;
    }
    let mut i: usize = 0;
    while i < tracks.len()
        invariant
            i <= tracks@.len(),
            k == sources@.len(),
            sv == sources_view(sources@),
            reqs == index_requests(sv, tracks@),
            start == (old(queue).spec_queue(), old(queue).spec_seen()),
            (queue.spec_queue(), queue.spec_seen()) == after_requests(start.0, start.1, reqs.take(k + i)),
        decreases tracks.len() - i,
    {
        let t = &tracks[i];
        let stamp = art_stamp(t);
        proof {
            assert(reqs.take(k + i + 1).drop_last() =~= reqs.take(k + i));
            assert(reqs.take(k + i + 1).last() == reqs[k + i]);
        }
        queue.request(t.audio_path.as_str(), t.audio_path.as_str(), stamp, false);
        i += 1;
    }
    assert(reqs.take(k + i) =~= reqs);
}


// ---------------------------------------------------------------------------
// Which album each file is on
// ---------------------------------------------------------------------------

/// Each file of the first `n` tracks mapped to its album (the last track
/// listing a file wins).
pub open spec fn album_map(ts: Seq<Track>, n: int) -> Map<Seq<char>, Seq<char>>
    decreases n,
{
    if n <= 0 {
        Map::empty()
    } else {
        album_map(ts, n - 1).insert(ts[n - 1].audio_path@, ts[n - 1].album@)
    }
}

/// Each file of the first `n` tracks mapped to its stamp.
pub open spec fn stamp_map(ts: Seq<Track>, n: int) -> Map<Seq<char>, u64>
    decreases n,
{
    if n <= 0 {
        Map::empty()
    } else {
        stamp_map(ts, n - 1).insert(ts[n - 1].audio_path@, stamp_of(ts[n - 1]))
    }
}

/// The files of the first `n` tracks that are on `album`, in order.
pub open spec fn album_paths(ts: Seq<Track>, album: Seq<char>, n: int) -> Seq<Seq<char>>
    decreases n,
{
    if n <= 0 {
        Seq::empty()
    } else if ts[n - 1].album@ == album {
        album_paths(ts, album, n - 1).push(ts[n - 1].audio_path@)
    } else {
        album_paths(ts, album, n - 1)
    }
}

/// Each album of the first `n` tracks mapped to its files.
pub open spec fn paths_map(ts: Seq<Track>, n: int) -> Map<Seq<char>, Seq<Seq<char>>> {
    Map::new(|al: Seq<char>| exists|j: int| 0 <= j < n && ts[j].album@ == al, |al: Seq<char>| album_paths(ts, al, n))
}

pub open spec fn paths_view(m: Map<Seq<char>, Vec<String>>) -> Map<Seq<char>, Seq<Seq<char>>> {
    m.map_values(|v: Vec<String>| crate::art::texts_view(v@))
}

fn copy_texts(v: &Vec<String>) -> (r: Vec<String>)
    ensures
        crate::art::texts_view(r@) == crate::art::texts_view(v@),
{
    let mut r: Vec<String> = Vec::new();
    let mut i: usize = 0;
    while i < v.len()
        invariant
            i <= v@.len(),
            crate::art::texts_view(r@) == crate::art::texts_view(v@).take(i as int),
        decreases v.len() - i,
    {
        let ghost before = r@;
        r.push(v[i].clone());
        assert(crate::art::texts_view(r@) =~= crate::art::texts_view(before).push(v@[i as int]@));
        i += 1;
        assert(crate::art::texts_view(r@) =~= crate::art::texts_view(v@).take(i as int));
    }
    assert(crate::art::texts_view(v@).take(i as int) =~= crate::art::texts_view(v@));
    r
}

proof fn lemma_album_paths_empty(ts: Seq<Track>, album: Seq<char>, n: int)
    requires
        forall|j: int| 0 <= j < n ==> ts[j].album@ != album,
    ensures
        album_paths(ts, album, n) == Seq::<Seq<char>>::empty(),
    decreases n,
{
    if n > 0 {
        lemma_album_paths_empty(ts, album, n - 1);
    }
}

/// The library as the artwork code sees it: each file's album and stamp,
/// and each album's files in library order.
pub struct LibraryIndex {
    album_of_path: KeyedMemo<String>,
    tracks_by_album: KeyedMemo<Vec<String>>,
    stamp_of_path: KeyedMemo<u64>,
}

impl LibraryIndex {
    pub closed spec fn spec_albums(&self) -> Map<Seq<char>, Seq<char>> {
        self.album_of_path@.map_values(|s: String| s@)
    }

    pub closed spec fn spec_paths(&self) -> Map<Seq<char>, Seq<Seq<char>>> {
        paths_view(self.tracks_by_album@)
    }

    pub closed spec fn spec_stamps(&self) -> Map<Seq<char>, u64> {
        self.stamp_of_path@
    }

    pub closed spec fn wf(&self) -> bool {
        self.album_of_path.wf() && self.tracks_by_album.wf() && self.stamp_of_path.wf()
    }

    /// The index of `tracks`.
    pub fn remember_library(tracks: &[Track]) -> (r: Self)
        ensures
            r.wf(),
            r.spec_albums() == album_map(tracks@, tracks@.len() as int),
            r.spec_paths() == paths_map(tracks@, tracks@.len() as int),
            r.spec_stamps() == stamp_map(tracks@, tracks@.len() as int),
    {
        let mut r = LibraryIndex {
            album_of_path: KeyedMemo::new(),
            tracks_by_album: KeyedMemo::new(),
            stamp_of_path: KeyedMemo::new(),
        };
        let ghost ts = tracks@;
        assert(r.spec_albums() =~= album_map(ts, 0));
        assert(r.spec_paths() =~= paths_map(ts, 0));
        assert(r.spec_stamps() =~= stamp_map(ts, 0));
        let mut i: usize = 0;
        while i < tracks.len()
            invariant
                i <= ts.len(),
                ts == tracks@,
                r.wf(),
                r.spec_albums() == album_map(ts, i as int),
                r.spec_paths() == paths_map(ts, i as int),
                r.spec_stamps() == stamp_map(ts, i as int),
            decreases tracks.len() - i,
        {
            let t = &tracks[i];
            let ghost paths0 = r.spec_paths();
            let mut files: Vec<String> = match r.tracks_by_album.get(t.album.as_str()) {
                Some(v) => {
                    assert(paths0[t.album@] == crate::art::texts_view(v@));
                    copy_texts(v)
                },
                None => Vec::new(),
            };
            proof {
                if !paths0.contains_key(t.album@) {
                    assert forall|j: int| 0 <= j < i implies ts[j].album@ != t.album@ by {
                        if ts[j].album@ == t.album@ {
                            assert(paths_map(ts, i as int).contains_key(t.album@));
                        }
                    }
                    lemma_album_paths_empty(ts, t.album@, i as int);
                    assert(crate::art::texts_view(files@) =~= album_paths(ts, t.album@, i as int));
                } else {
                    assert(crate::art::texts_view(files@) == album_paths(ts, t.album@, i as int));
                }
            }
            let ghost before_files = files@;
            files.push(t.audio_path.clone());
            assert(crate::art::texts_view(files@) =~= crate::art::texts_view(before_files).push(t.audio_path@));
            r.tracks_by_album.insert(t.album.clone(), files);
            r.album_of_path.insert(t.audio_path.clone(), t.album.clone());
            r.stamp_of_path.insert(t.audio_path.clone(), art_stamp(t));
            proof {
                assert(ts[i as int] == *t);
                assert(r.spec_albums() =~= album_map(ts, i + 1));
                assert(r.spec_stamps() =~= stamp_map(ts, i + 1));
                let want = paths_map(ts, i + 1);
                assert forall|al: Seq<char>| #[trigger] r.spec_paths().contains_key(al) == want.contains_key(al) by {
                    if al != t.album@ {
                        if want.contains_key(al) {
                            let j = choose|j: int| 0 <= j < i + 1 && ts[j].album@ == al;
                            assert(j < i);
                            assert(paths0.contains_key(al));
                        }
                        if r.spec_paths().contains_key(al) {
                            assert(paths0.contains_key(al));
                            let j = choose|j: int| 0 <= j < i && ts[j].album@ == al;
                            assert(0 <= j < i + 1 && ts[j].album@ == al);
                        }
                    } else {
                        assert(0 <= i < i + 1 && ts[i as int].album@ == al);
                    }
                }
                assert forall|al: Seq<char>| r.spec_paths().contains_key(al) implies #[trigger] r.spec_paths()[al] == want[al] by {
                    if al != t.album@ {
                        assert(paths0.contains_key(al));
                        assert(r.spec_paths()[al] == paths0[al]);
                        assert(album_paths(ts, al, i + 1) == album_paths(ts, al, i as int));
                    } else {
                        assert(r.spec_paths()[al] == crate::art::texts_view(files@));
                        assert(album_paths(ts, al, i + 1) == album_paths(ts, al, i as int).push(t.audio_path@));
                    }
                }
                assert(r.spec_paths() =~= want);
            }
            i += 1;
        }
        r
    }

    /// The album the file `audio_path` is on.
    pub fn album_of(&self, audio_path: &str) -> (r: Option<String>)
        requires
            self.wf(),
        ensures
            match r {
                Some(a) => self.spec_albums().contains_key(audio_path@) && a@ == self.spec_albums()[audio_path@],
                None => !self.spec_albums().contains_key(audio_path@),
            },
    {
        match self.album_of_path.get(audio_path) {
            Some(a) => Some(a.clone()),
            None => None,
        }
    }

    /// The stamp of the file `audio_path`.
    pub fn stamp_of_file(&self, audio_path: &str) -> (r: Option<u64>)
        requires
            self.wf(),
        ensures
            match r {
                Some(s) => self.spec_stamps().contains_key(audio_path@) && s == self.spec_stamps()[audio_path@],
                None => !self.spec_stamps().contains_key(audio_path@),
            },
    {
        match self.stamp_of_path.get(audio_path) {
            Some(s) => Some(*s),
            None => None,
        }
    }

    /// The files of `album`, in library order.
    pub fn files_of_album(&self, album: &str) -> (r: Option<Vec<String>>)
        requires
            self.wf(),
        ensures
            match r {
                Some(v) => self.spec_paths().contains_key(album@) && crate::art::texts_view(v@) == self.spec_paths()[album@],
                None => !self.spec_paths().contains_key(album@),
            },
    {
        match self.tracks_by_album.get(album) {
            Some(v) => Some(copy_texts(v)),
            None => None,
        }
    }
}

/// The first file among `files` (from `i` on) whose thumbnail is known and
/// is a picture.
pub open spec fn first_art(files: Seq<Seq<char>>, thumbs: Map<Seq<char>, Option<Vec<u8>>>, i: int) -> Option<Seq<u8>>
    decreases files.len() - i,
{
    if i < 0 || i >= files.len() {
        None
    } else if thumbs.contains_key(files[i]) && thumbs[files[i]] is Some {
        Some(thumbs[files[i]]->0@)
    } else {
        first_art(files, thumbs, i + 1)
    }
}

fn copy_bytes(bytes: &Vec<u8>) -> (r: Vec<u8>)
    ensures
        r@ == bytes@,
{
    let mut copy: Vec<u8> = Vec::new();
    let mut k: usize = 0;
    while k < bytes.len()
        invariant
            k <= bytes@.len(),
            copy@ == bytes@.take(k as int),
        decreases bytes.len() - k,
    {
        copy.push(bytes[k]);
        k += 1;
        assert(copy@ =~= bytes@.take(k as int));
    }
    assert(bytes@.take(k as int) =~= bytes@);
    copy
}

/// An album's artwork: the thumbnail of the first of its files that has
/// one, among the thumbnails extracted so far.
pub fn album_art(index: &LibraryIndex, album: &str, thumbs: &KeyedMemo<Option<Vec<u8>>>) -> (r: Option<Vec<u8>>)
    requires
        index.wf(),
        thumbs.wf(),
    ensures
        match index.spec_paths().get(album@) {
            Some(files) => match first_art(files, thumbs@, 0) {
                Some(a) => r is Some && r->0@ == a,
                None => r is None,
            },
            None => r is None,
        },
{
    let files = match index.files_of_album(album) {
        Some(f) => f,
        None => return None,
    };
    let ghost fv = crate::art::texts_view(files@);
    let mut i: usize = 0;
    while i < files.len()
        invariant
            i <= files@.len(),
            thumbs.wf(),
            fv == crate::art::texts_view(files@),
            index.spec_paths().contains_key(album@),
            index.spec_paths()[album@] == fv,
            first_art(fv, thumbs@, 0) == first_art(fv, thumbs@, i as int),
        decreases files.len() - i,
    {
        let found = thumbs.get(files[i].as_str());
        assert(fv[i as int] == files@[i as int]@);
        match found {
            Some(Some(art)) => {
                return Some(copy_bytes(art));
            },
            _ => {},
        }
        i += 1;
    }
    None
}


// ---------------------------------------------------------------------------
// Which rows a cover is written into
// ---------------------------------------------------------------------------

/// A list of rows that artwork is written into.
#[derive(Debug, Clone, Copy, PartialEq, Eq, Structural)]
pub enum ArtList {
    Library,
    AlbumDetail,
    ArtistDetail,
    AlbumCards,
}

/// Rows of one list to give the cover kept under `key`.
pub struct PatchItem {
    pub list: ArtList,
    pub key: String,
    pub rows: Vec<usize>,
}

pub type PatchView = (ArtList, Seq<char>, Seq<usize>);

pub open spec fn items_view(v: Seq<PatchItem>) -> Seq<PatchView> {
    Seq::new(v.len(), |i: int| (v[i].list, v[i].key@, v[i].rows@))
}

/// Which rows show which file and which album: the library list, the open
/// album's list and the open artist's list, each by file and by album, and
/// the album grid's cards by album.
pub struct ArtRows {
    pub library: KeyedMemo<Vec<usize>>,
    pub album_detail: KeyedMemo<Vec<usize>>,
    pub artist_detail: KeyedMemo<Vec<usize>>,
    pub library_by_album: KeyedMemo<Vec<usize>>,
    pub album_detail_by_album: KeyedMemo<Vec<usize>>,
    pub artist_detail_by_album: KeyedMemo<Vec<usize>>,
    pub album_cards: KeyedMemo<Vec<usize>>,
}

pub open spec fn rows_of(m: Map<Seq<char>, Vec<usize>>) -> Map<Seq<char>, Seq<usize>> {
    m.map_values(|v: Vec<usize>| v@)
}

/// The entry for `k` in one list's index, under the cover key `key`.
pub open spec fn entry_for(m: Map<Seq<char>, Seq<usize>>, list: ArtList, k: Seq<char>, key: Seq<char>) -> Seq<PatchView> {
    if m.contains_key(k) {
        seq![(list, key, m[k])]
    } else {
        Seq::empty()
    }
}

/// The rows showing the file `p`, in the three track lists.
pub open spec fn path_items(rows: ArtRows, p: Seq<char>) -> Seq<PatchView> {
    entry_for(rows_of(rows.library@), ArtList::Library, p, p) + entry_for(
        rows_of(rows.album_detail@),
        ArtList::AlbumDetail,
        p,
        p,
    ) + entry_for(rows_of(rows.artist_detail@), ArtList::ArtistDetail, p, p)
}

/// The rows showing the album `al`, in the three track lists and the grid,
/// under the album's cover key.
pub open spec fn album_items(rows: ArtRows, al: Seq<char>) -> Seq<PatchView> {
    let key = "album:"@ + al;
    entry_for(rows_of(rows.library_by_album@), ArtList::Library, al, key) + entry_for(
        rows_of(rows.album_detail_by_album@),
        ArtList::AlbumDetail,
        al,
        key,
    ) + entry_for(rows_of(rows.artist_detail_by_album@), ArtList::ArtistDetail, al, key) + entry_for(
        rows_of(rows.album_cards@),
        ArtList::AlbumCards,
        al,
        key,
    )
}

pub open spec fn items_for_paths(rows: ArtRows, paths: Seq<Seq<char>>) -> Seq<PatchView>
    decreases paths.len(),
{
    if paths.len() == 0 {
        Seq::empty()
    } else {
        items_for_paths(rows, paths.drop_last()) + path_items(rows, paths.last())
    }
}

pub open spec fn items_for_albums(rows: ArtRows, albums: Seq<Seq<char>>) -> Seq<PatchView>
    decreases albums.len(),
{
    if albums.len() == 0 {
        Seq::empty()
    } else {
        items_for_albums(rows, albums.drop_last()) + album_items(rows, albums.last())
    }
}

fn push_entry(out: &mut Vec<PatchItem>, m: &KeyedMemo<Vec<usize>>, list: ArtList, k: &str, key: &str)
    requires
        m.wf(),
    ensures
        items_view(final(out)@) == items_view(old(out)@) + entry_for(rows_of(m@), list, k@, key@),
{
    let ghost before = items_view(out@);
    match m.get(k) {
        Some(rows) => {
            let mut copy: Vec<usize> = Vec::new();
            let mut i: usize = 0;
            while i < rows.len()
                invariant
                    i <= rows@.len(),
                    copy@ == rows@.take(i as int),
                decreases rows.len() - i,
            {
                copy.push(rows[i]);
                i += 1;
                assert(copy@ =~= rows@.take(i as int));
            }
            assert(rows@.take(i as int) =~= rows@);
            out.push(PatchItem { list, key: key.to_string(), rows: copy });
            assert(items_view(out@) =~= before + entry_for(rows_of(m@), list, k@, key@));
        },
        None => {
            assert(items_view(out@) =~= before + entry_for(rows_of(m@), list, k@, key@));
        },
    }
}

impl ArtRows {
    pub open spec fn wf(&self) -> bool {
        &&& self.library.wf()
        &&& self.album_detail.wf()
        &&& self.artist_detail.wf()
        &&& self.library_by_album.wf()
        &&& self.album_detail_by_album.wf()
        &&& self.artist_detail_by_album.wf()
        &&& self.album_cards.wf()
    }

    /// No list has rows indexed.
    pub open spec fn is_empty(&self) -> bool {
        &&& self.library@ == Map::<Seq<char>, Vec<usize>>::empty()
        &&& self.album_detail@ == Map::<Seq<char>, Vec<usize>>::empty()
        &&& self.artist_detail@ == Map::<Seq<char>, Vec<usize>>::empty()
        &&& self.library_by_album@ == Map::<Seq<char>, Vec<usize>>::empty()
        &&& self.album_detail_by_album@ == Map::<Seq<char>, Vec<usize>>::empty()
        &&& self.artist_detail_by_album@ == Map::<Seq<char>, Vec<usize>>::empty()
        &&& self.album_cards@ == Map::<Seq<char>, Vec<usize>>::empty()
    }

    /// No rows known yet.
    pub fn new() -> (r: Self)
        ensures
            r.wf(),
            r.is_empty(),
    {
        ArtRows {
            library: KeyedMemo::new(),
            album_detail: KeyedMemo::new(),
            artist_detail: KeyedMemo::new(),
            library_by_album: KeyedMemo::new(),
            album_detail_by_album: KeyedMemo::new(),
            artist_detail_by_album: KeyedMemo::new(),
            album_cards: KeyedMemo::new(),
        }
    }

    /// The rows to give the covers that just arrived: for each file, the
    /// rows showing it (under its own key), then for each album, the rows
    /// showing the album (under `album:<name>`), list by list.
    pub fn patch_work(&self, paths: &[String], albums: &[String]) -> (r: Vec<PatchItem>)
        requires
            self.wf(),
        ensures
            items_view(r@) == items_for_paths(*self, crate::art::texts_view(paths@)) + items_for_albums(
                *self,
                crate::art::texts_view(albums@),
            ),
    {
        let ghost pv = crate::art::texts_view(paths@);
        let ghost av = crate::art::texts_view(albums@);
        let mut out: Vec<PatchItem> = Vec::new();
        let mut i: usize = 0;
        assert(items_view(out@) =~= items_for_paths(*self, pv.take(0)));
        while i < paths.len()
            invariant
                i <= paths@.len(),
                self.wf(),
                pv == crate::art::texts_view(paths@),
                items_view(out@) == items_for_paths(*self, pv.take(i as int)),
            decreases paths.len() - i,
        {
            let p = paths[i].as_str();
            proof {
                assert(pv.take(i + 1).drop_last() =~= pv.take(i as int));
                assert(pv.take(i + 1).last() == p@);
            }
            let ghost before = items_view(out@);
            push_entry(&mut out, &self.library, ArtList::Library, p, p);
            push_entry(&mut out, &self.album_detail, ArtList::AlbumDetail, p, p);
            push_entry(&mut out, &self.artist_detail, ArtList::ArtistDetail, p, p);
            assert(items_view(out@) =~= before + path_items(*self, p@));
            i += 1;
        }
        assert(pv.take(i as int) =~= pv);
        let ghost after_paths = items_view(out@);
        let mut k: usize = 0;
        assert(items_view(out@) =~= after_paths + items_for_albums(*self, av.take(0)));
        while k < albums.len()
            invariant
                k <= albums@.len(),
                self.wf(),
                av == crate::art::texts_view(albums@),
                items_view(out@) == after_paths + items_for_albums(*self, av.take(k as int)),
            decreases albums.len() - k,
        {
            let al = albums[k].as_str();
            let key = crate::library::album_image_key(al);
            proof {
                assert(av.take(k + 1).drop_last() =~= av.take(k as int));
                assert(av.take(k + 1).last() == al@);
            }
            let ghost before = items_view(out@);
            push_entry(&mut out, &self.library_by_album, ArtList::Library, al, key.as_str());
            push_entry(&mut out, &self.album_detail_by_album, ArtList::AlbumDetail, al, key.as_str());
            push_entry(&mut out, &self.artist_detail_by_album, ArtList::ArtistDetail, al, key.as_str());
            push_entry(&mut out, &self.album_cards, ArtList::AlbumCards, al, key.as_str());
            assert(items_view(out@) =~= before + album_items(*self, al@));
            k += 1;
        }
        assert(av.take(k as int) =~= av);
        out
    }
}

/// What showing a cover takes, when the image cache does not know it.
pub enum CoverNeed {
    /// The file was read: decode its thumbnail, or show a placeholder.
    Decode(Option<Vec<u8>>),
    /// Urgent: look in the thumbnail index before queueing.
    LookInIndex,
    /// The file is queued (or was asked about already): a placeholder for now.
    Queued,
}

// ---------------------------------------------------------------------------
// Everything the artwork loader knows
// ---------------------------------------------------------------------------

/// What the artwork loader knows: the work list, the thumbnails extracted so
/// far (`None` for a file found to have none), the library's albums, the
/// rows showing each file and album, and the album the player waits on.
pub struct ArtLoader {
    pub queue: ArtQueue,
    pub thumbs: KeyedMemo<Option<Vec<u8>>>,
    pub library: LibraryIndex,
    pub rows: ArtRows,
    pub player_album: Option<String>,
}

impl ArtLoader {
    pub open spec fn wf(&self) -> bool {
        &&& self.thumbs.wf()
        &&& self.library.wf()
        &&& self.rows.wf()
    }

    /// A loader that knows nothing yet.
    pub fn new() -> (r: Self)
        ensures
            r.wf(),
            r.queue.spec_queue() == Seq::<JobView>::empty(),
            r.queue.spec_seen() == Set::<(Seq<char>, u64)>::empty(),
            r.thumbs@ == Map::<Seq<char>, Option<Vec<u8>>>::empty(),
            r.library.spec_albums() == Map::<Seq<char>, Seq<char>>::empty(),
            r.library.spec_paths() == Map::<Seq<char>, Seq<Seq<char>>>::empty(),
            r.rows.is_empty(),
            r.player_album is None,
    {
        let none: Vec<Track> = Vec::new();
        let library = LibraryIndex::remember_library(none.as_slice());
        assert(paths_map(none@, 0) =~= Map::<Seq<char>, Seq<Seq<char>>>::empty());
        ArtLoader {
            queue: ArtQueue::new(),
            thumbs: KeyedMemo::new(),
            library,
            rows: ArtRows::new(),
            player_album: None,
        }
    }

    /// Remembers which tracks make up each album.
    pub fn remember_library(&mut self, tracks: &[Track])
        requires
            old(self).wf(),
        ensures
            final(self).wf(),
            final(self).library.spec_albums() == album_map(tracks@, tracks@.len() as int),
            final(self).library.spec_paths() == paths_map(tracks@, tracks@.len() as int),
            final(self).library.spec_stamps() == stamp_map(tracks@, tracks@.len() as int),
            final(self).queue == old(self).queue,
            final(self).thumbs@ == old(self).thumbs@,
            final(self).rows == old(self).rows,
            final(self).player_album == old(self).player_album,
    {
        self.library = LibraryIndex::remember_library(tracks);
    }

    /// The thumbnail extracted for `key`: `None` when it was not extracted
    /// yet, `Some(None)` when the file has no artwork.
    pub fn thumbnail_for(&self, key: &str) -> (r: Option<Option<Vec<u8>>>)
        requires
            self.wf(),
        ensures
            match r {
                Some(t) => self.thumbs@.contains_key(key@) && match (t, self.thumbs@[key@]) {
                    (Some(a), Some(b)) => a@ == b@,
                    (None, None) => true,
                    _ => false,
                },
                None => !self.thumbs@.contains_key(key@),
            },
    {
        match self.thumbs.get(key) {
            None => None,
            Some(None) => Some(None),
            Some(Some(bytes)) => Some(Some(copy_bytes(bytes))),
        }
    }

    /// Forgets what the loader believed about the library's artwork, the
    /// folders' covers and the decoded images, because a scan may have
    /// changed the files: no job is queued, no file counts as asked about,
    /// no thumbnail and no row is known, the player waits on nothing. Which
    /// tracks make up each album is kept.
    pub fn reset_after_scan<V>(&mut self, folders: &mut FolderArtCache, images: &mut UiImageCache<V>)
        requires
            old(self).wf(),
            old(images).wf(),
        ensures
            final(self).wf(),
            final(self).queue.spec_queue() == Seq::<JobView>::empty(),
            final(self).queue.spec_seen() == Set::<(Seq<char>, u64)>::empty(),
            final(self).thumbs@ == Map::<Seq<char>, Option<Vec<u8>>>::empty(),
            final(self).rows.is_empty(),
            final(self).player_album is None,
            final(self).library == old(self).library,
            final(folders).wf(),
            final(folders).folders@ == Map::<Seq<char>, FolderArt>::empty(),
            final(folders).thumbnails@ == Map::<Seq<char>, Option<Vec<u8>>>::empty(),
            final(images).wf(),
            final(images).spec_limit() == old(images).spec_limit(),
            final(images).spec_images() == Map::<Seq<char>, V>::empty(),
            final(images).spec_order() == Seq::<Seq<char>>::empty(),
    {
        clear_folder_art_cache(folders);
        self.thumbs.clear();
        self.queue.reset();
        self.rows = ArtRows::new();
        self.player_album = None;
        images.clear();
    }

    /// Records which rows of the library list show each file (`paths`, row
    /// by row) and each album (`albums`, row by row).
    pub fn remember_library_rows(&mut self, paths: &[String], albums: &[String])
        requires
            old(self).wf(),
        ensures
            final(self).wf(),
            rows_of(final(self).rows.library@) == row_map(crate::art::texts_view(paths@), paths@.len() as int),
            rows_of(final(self).rows.library_by_album@) == row_map(crate::art::texts_view(albums@), albums@.len() as int),
            final(self).rows.album_detail == old(self).rows.album_detail,
            final(self).rows.artist_detail == old(self).rows.artist_detail,
            final(self).rows.album_detail_by_album == old(self).rows.album_detail_by_album,
            final(self).rows.artist_detail_by_album == old(self).rows.artist_detail_by_album,
            final(self).rows.album_cards == old(self).rows.album_cards,
            final(self).queue == old(self).queue,
            final(self).thumbs == old(self).thumbs,
            final(self).library == old(self).library,
            final(self).player_album == old(self).player_album,
    {
        self.rows.library = index_rows(paths);
        self.rows.library_by_album = index_rows(albums);
    }

    /// Records which rows of the open album's list show each file and each
    /// album.
    pub fn remember_album_detail_rows(&mut self, paths: &[String], albums: &[String])
        requires
            old(self).wf(),
        ensures
            final(self).wf(),
            rows_of(final(self).rows.album_detail@) == row_map(crate::art::texts_view(paths@), paths@.len() as int),
            rows_of(final(self).rows.album_detail_by_album@) == row_map(
                crate::art::texts_view(albums@),
                albums@.len() as int,
            ),
            final(self).rows.library == old(self).rows.library,
            final(self).rows.artist_detail == old(self).rows.artist_detail,
            final(self).rows.library_by_album == old(self).rows.library_by_album,
            final(self).rows.artist_detail_by_album == old(self).rows.artist_detail_by_album,
            final(self).rows.album_cards == old(self).rows.album_cards,
            final(self).queue == old(self).queue,
            final(self).thumbs == old(self).thumbs,
            final(self).library == old(self).library,
            final(self).player_album == old(self).player_album,
    {
        self.rows.album_detail = index_rows(paths);
        self.rows.album_detail_by_album = index_rows(albums);
    }

    /// Records which rows of the open artist's list show each file and each
    /// album.
    pub fn remember_artist_detail_rows(&mut self, paths: &[String], albums: &[String])
        requires
            old(self).wf(),
        ensures
            final(self).wf(),
            rows_of(final(self).rows.artist_detail@) == row_map(crate::art::texts_view(paths@), paths@.len() as int),
            rows_of(final(self).rows.artist_detail_by_album@) == row_map(
                crate::art::texts_view(albums@),
                albums@.len() as int,
            ),
            final(self).rows.library == old(self).rows.library,
            final(self).rows.album_detail == old(self).rows.album_detail,
            final(self).rows.library_by_album == old(self).rows.library_by_album,
            final(self).rows.album_detail_by_album == old(self).rows.album_detail_by_album,
            final(self).rows.album_cards == old(self).rows.album_cards,
            final(self).queue == old(self).queue,
            final(self).thumbs == old(self).thumbs,
            final(self).library == old(self).library,
            final(self).player_album == old(self).player_album,
    {
        self.rows.artist_detail = index_rows(paths);
        self.rows.artist_detail_by_album = index_rows(albums);
    }

    /// Records which cards of the album grid show each album (`names`, card
    /// by card).
    pub fn remember_album_cards(&mut self, names: &[String])
        requires
            old(self).wf(),
        ensures
            final(self).wf(),
            rows_of(final(self).rows.album_cards@) == row_map(crate::art::texts_view(names@), names@.len() as int),
            final(self).rows.library == old(self).rows.library,
            final(self).rows.album_detail == old(self).rows.album_detail,
            final(self).rows.artist_detail == old(self).rows.artist_detail,
            final(self).rows.library_by_album == old(self).rows.library_by_album,
            final(self).rows.album_detail_by_album == old(self).rows.album_detail_by_album,
            final(self).rows.artist_detail_by_album == old(self).rows.artist_detail_by_album,
            final(self).queue == old(self).queue,
            final(self).thumbs == old(self).thumbs,
            final(self).library == old(self).library,
            final(self).player_album == old(self).player_album,
    {
        self.rows.album_cards = index_rows(names);
    }

    /// The album the player waits on for a cover, `None` once it has one.
    pub fn set_player_album(&mut self, album: Option<String>)
        ensures
            final(self).player_album == album,
            final(self).queue == old(self).queue,
            final(self).thumbs == old(self).thumbs,
            final(self).library == old(self).library,
            final(self).rows == old(self).rows,
    {
        self.player_album = album;
    }

    /// The album the player waits on, when its cover is among the `albums`
    /// that just got one; the player then waits on nothing. Otherwise
    /// nothing changes.
    pub fn take_arrived_player_album(&mut self, albums: &[String]) -> (r: Option<String>)
        ensures
            final(self).queue == old(self).queue,
            final(self).thumbs == old(self).thumbs,
            final(self).library == old(self).library,
            final(self).rows == old(self).rows,
            match old(self).player_album {
                Some(a) => if crate::art::texts_view(albums@).contains(a@) {
                    r == Some(a) && final(self).player_album is None
                } else {
                    r is None && final(self).player_album == old(self).player_album
                },
                None => r is None && final(self).player_album is None,
            },
    {
        let arrived = match &self.player_album {
            Some(a) => holds_text(albums, a.as_str()),
            None => false,
        };
        if arrived {
            self.player_album.take()
        } else {
            None
        }
    }

    /// What showing the cover kept under `key` takes once the image cache
    /// had no answer: the extracted thumbnail (or the lack of one) when the
    /// file was read already; otherwise, for an urgent request, a look in
    /// the thumbnail index first; otherwise the file is queued.
    pub fn cover_need(&mut self, key: &str, path: &str, stamp: u64, urgent: bool) -> (r: CoverNeed)
        requires
            old(self).wf(),
        ensures
            final(self).wf(),
            final(self).thumbs@ == old(self).thumbs@,
            final(self).library == old(self).library,
            final(self).rows == old(self).rows,
            final(self).player_album == old(self).player_album,
            if old(self).thumbs@.contains_key(key@) {
                &&& r matches CoverNeed::Decode(t) && match (t, old(self).thumbs@[key@]) {
                    (Some(a), Some(b)) => a@ == b@,
                    (None, None) => true,
                    _ => false,
                }
                &&& final(self).queue == old(self).queue
            } else if urgent {
                &&& r is LookInIndex
                &&& final(self).queue == old(self).queue
            } else {
                &&& r is Queued
                &&& (final(self).queue.spec_queue(), final(self).queue.spec_seen()) == requested(
                    old(self).queue.spec_queue(),
                    old(self).queue.spec_seen(),
                    key@,
                    path@,
                    stamp,
                    false,
                )
            },
    {
        match self.thumbnail_for(key) {
            Some(t) => CoverNeed::Decode(t),
            None => if urgent {
                CoverNeed::LookInIndex
            } else {
                self.queue.request(key, path, stamp, false);
                CoverNeed::Queued
            },
        }
    }

    /// Takes the answer of the thumbnail index for an urgent cover: a
    /// thumbnail found there is remembered under `key` and handed back;
    /// without one the file is queued, in front.
    pub fn index_answer(&mut self, key: String, path: &str, stamp: u64, found: Option<Vec<u8>>) -> (r: Option<Vec<u8>>)
        requires
            old(self).wf(),
        ensures
            final(self).wf(),
            final(self).library == old(self).library,
            final(self).rows == old(self).rows,
            final(self).player_album == old(self).player_album,
            match found {
                Some(bytes) => {
                    &&& r is Some && r->0@ == bytes@
                    &&& final(self).thumbs@.contains_key(key@)
                    &&& final(self).thumbs@[key@] matches Some(b) && b@ == bytes@
                    &&& final(self).thumbs@.remove(key@) == old(self).thumbs@.remove(key@)
                    &&& final(self).queue == old(self).queue
                },
                None => {
                    &&& r is None
                    &&& final(self).thumbs@ == old(self).thumbs@
                    &&& (final(self).queue.spec_queue(), final(self).queue.spec_seen()) == requested(
                        old(self).queue.spec_queue(),
                        old(self).queue.spec_seen(),
                        key@,
                        path@,
                        stamp,
                        true,
                    )
                },
            },
    {
        match found {
            Some(bytes) => {
                let copy = copy_bytes(&bytes);
                let ghost before = self.thumbs@;
                self.thumbs.insert(key, Some(bytes));
                assert(self.thumbs@.remove(key@) =~= before.remove(key@));
                Some(copy)
            },
            None => {
                self.queue.request(key.as_str(), path, stamp, true);
                None
            },
        }
    }

    /// Where an album's artwork may already be in the thumbnail index: each
    /// of its files, in library order, with the stamp it was indexed under
    /// (0 when unknown). Nothing for an album the library does not have.
    pub fn album_art_sources(&self, album: &str) -> (r: Vec<(String, u64)>)
        requires
            self.wf(),
        ensures
            match self.library.spec_paths().get(album@) {
                Some(files) => r@.len() == files.len() && forall|i: int|
                    0 <= i < files.len() ==> (#[trigger] r@[i]).0@ == files[i] && r@[i].1 == if self.library.spec_stamps().contains_key(files[i]) {
                        self.library.spec_stamps()[files[i]]
                    } else {
                        0u64
                    },
                None => r@.len() == 0,
            },
    {
        let files = match self.library.files_of_album(album) {
            Some(f) => f,
            None => return Vec::new(),
        };
        let ghost fv = crate::art::texts_view(files@);
        let mut out: Vec<(String, u64)> = Vec::new();
        let mut i: usize = 0;
        while i < files.len()
            invariant
                self.wf(),
                i <= files@.len(),
                fv == crate::art::texts_view(files@),
                out@.len() == i,
                forall|j: int|
                    0 <= j < i ==> (#[trigger] out@[j]).0@ == fv[j] && out@[j].1 == if self.library.spec_stamps().contains_key(fv[j]) {
                        self.library.spec_stamps()[fv[j]]
                    } else {
                        0u64
                    },
            decreases files.len() - i,
        {
            let stamp = match self.library.stamp_of_file(files[i].as_str()) {
                Some(s) => s,
                None => 0,
            };
            out.push((files[i].clone(), stamp));
            i += 1;
        }
        out
    }

    /// An album's artwork, through whichever of its files turned out to have
    /// some.
    pub fn album_art(&self, album: &str) -> (r: Option<Vec<u8>>)
        requires
            self.wf(),
        ensures
            match self.library.spec_paths().get(album@) {
                Some(files) => match first_art(files, self.thumbs@, 0) {
                    Some(a) => r is Some && r->0@ == a,
                    None => r is None,
                },
                None => r is None,
            },
    {
        album_art(&self.library, album, &self.thumbs)
    }
}

/// Whether `list` holds the text `s`.
fn holds_text(list: &[String], s: &str) -> (r: bool)
    ensures
        r == crate::art::texts_view(list@).contains(s@),
{
    let a = s.to_owned();
    let mut i: usize = 0;
    while i < list.len()
        invariant
            i <= list@.len(),
            a@ == s@,
            forall|j: int| 0 <= j < i ==> list@[j]@ != a@,
        decreases list.len() - i,
    {
        if list[i] == a {
            assert(crate::art::texts_view(list@)[i as int] == a@);
            assert(crate::art::texts_view(list@).contains(a@));
            return true;
        }
        i += 1;
    }
    assert(!crate::art::texts_view(list@).contains(a@)) by {
        if crate::art::texts_view(list@).contains(a@) {
            let j = choose|j: int| 0 <= j < list@.len() && crate::art::texts_view(list@)[j] == a@;
            assert(list@[j]@ == a@);
        }
    }
    false
}

/// Whether the album the player is waiting on is among those whose covers
/// just arrived.
pub fn player_album_arrived(player_album: Option<&str>, albums: &[String]) -> (r: bool)
    ensures
        r == match player_album {
            Some(a) => crate::art::texts_view(albums@).contains(a@),
            None => false,
        },
{
    match player_album {
        Some(p) => holds_text(albums, p),
        None => false,
    }
}

// ---------------------------------------------------------------------------
// Covers arriving from the workers
// ---------------------------------------------------------------------------

/// The image cache as the arrival of covers sees it: the keys from least to
/// most recently used, and for each key held whether it holds a picture.
pub type ShownView = (Seq<Seq<char>>, Map<Seq<char>, bool>);

pub open spec fn shown_of<V>(images: Map<Seq<char>, Option<V>>) -> Map<Seq<char>, bool> {
    images.map_values(|v: Option<V>| v is Some)
}

pub open spec fn shown_view<V>(cache: UiImageCache<Option<V>>) -> ShownView {
    (cache.spec_order(), shown_of(cache.spec_images()))
}

/// A look-up of `key`: a held key becomes the most recently used.
pub open spec fn after_get(st: ShownView, key: Seq<char>) -> ShownView {
    if st.1.contains_key(key) {
        (without_key(st.0, key).push(key), st.1)
    } else {
        st
    }
}

/// Storing `key` (a picture or the lack of one) in a cache of `limit`
/// images: it becomes the most recently used, and the least recently used
/// goes when the cache would hold too many.
pub open spec fn after_insert(st: ShownView, key: Seq<char>, picture: bool, limit: usize) -> ShownView {
    let touched = if st.1.contains_key(key) {
        without_key(st.0, key).push(key)
    } else {
        st.0.push(key)
    };
    let held = st.1.insert(key, picture);
    if touched.len() > limit {
        (touched.drop_first(), held.remove(touched[0]))
    } else {
        (touched, held)
    }
}

/// The cache and the lists of files and albums to repaint, after one cover
/// arrives for `key` (`picture`: whether the file had one). A file without
/// artwork is remembered as such and repaints nothing. A file with some is
/// repainted, and its album, when the album's cover is not yet a picture,
/// gets the same picture and is repainted too, once.
pub open spec fn absorbed_one(
    st: ShownView,
    acc: (Seq<Seq<char>>, Seq<Seq<char>>),
    albums_of: Map<Seq<char>, Seq<char>>,
    key: Seq<char>,
    picture: bool,
    limit: usize,
) -> (ShownView, (Seq<Seq<char>>, Seq<Seq<char>>)) {
    if !picture {
        (after_insert(st, key, false, limit), acc)
    } else if albums_of.contains_key(key) {
        let album = albums_of[key];
        let album_key = "album:"@ + album;
        let had = st.1.contains_key(album_key) && st.1[album_key];
        let looked = after_get(st, album_key);
        let (st2, albums) = if had {
            (looked, acc.1)
        } else {
            (
                after_insert(looked, album_key, true, limit),
                if acc.1.contains(album) {
                    acc.1
                } else {
                    acc.1.push(album)
                },
            )
        };
        (after_insert(st2, key, true, limit), (acc.0.push(key), albums))
    } else {
        (after_insert(st, key, true, limit), (acc.0.push(key), acc.1))
    }
}

/// `absorbed_one` over a batch of arrivals, in order.
pub open spec fn absorbed(
    st: ShownView,
    albums_of: Map<Seq<char>, Seq<char>>,
    ready: Seq<(Seq<char>, bool)>,
    limit: usize,
) -> (ShownView, (Seq<Seq<char>>, Seq<Seq<char>>))
    decreases ready.len(),
{
    if ready.len() == 0 {
        (st, (Seq::empty(), Seq::empty()))
    } else {
        let before = absorbed(st, albums_of, ready.drop_last(), limit);
        let last = ready.last();
        absorbed_one(before.0, before.1, albums_of, last.0, last.1, limit)
    }
}

pub open spec fn ready_view<V>(ready: Seq<(String, Option<V>)>) -> Seq<(Seq<char>, bool)> {
    Seq::new(ready.len(), |i: int| (ready[i].0@, ready[i].1 is Some))
}

proof fn lemma_shown_insert<V>(images: Map<Seq<char>, Option<V>>, k: Seq<char>, v: Option<V>)
    ensures
        shown_of(images.insert(k, v)) == shown_of(images).insert(k, v is Some),
        forall|x: Seq<char>| #[trigger] shown_of(images).contains_key(x) == images.contains_key(x),
{
    assert(shown_of(images.insert(k, v)) =~= shown_of(images).insert(k, v is Some));
}

proof fn lemma_shown_remove<V>(images: Map<Seq<char>, Option<V>>, k: Seq<char>)
    ensures
        shown_of(images.remove(k)) == shown_of(images).remove(k),
{
    assert(shown_of(images.remove(k)) =~= shown_of(images).remove(k));
}

fn store_image<V>(cache: &mut UiImageCache<Option<V>>, key: String, image: Option<V>)
    requires
        old(cache).wf(),
    ensures
        final(cache).wf(),
        final(cache).spec_limit() == old(cache).spec_limit(),
        shown_view(*final(cache)) == after_insert(shown_view(*old(cache)), key@, image is Some, old(cache).spec_limit()),
{
    let ghost images0 = cache.spec_images();
    let ghost picture = image is Some;
    proof {
        lemma_shown_insert(images0, key@, image);
    }
    let ghost touched = if images0.contains_key(key@) {
        without_key(cache.spec_order(), key@).push(key@)
    } else {
        cache.spec_order().push(key@)
    };
    cache.insert(key, image);
    proof {
        if touched.len() > cache.spec_limit() {
            lemma_shown_remove(images0.insert(key@, image), touched[0]);
        }
    }
}

/// Folds a batch of covers that arrived (each file's key and its picture,
/// if it had one) into the image cache, and says which files and which
/// albums to repaint. A file's picture is shared with its album, through
/// `index`, when the album has no picture yet.
pub fn absorb_ready_art<V: Clone>(
    ready: Vec<(String, Option<V>)>,
    index: &LibraryIndex,
    cache: &mut UiImageCache<Option<V>>,
) -> (r: (Vec<String>, Vec<String>))
    requires
        index.wf(),
        old(cache).wf(),
    ensures
        final(cache).wf(),
        final(cache).spec_limit() == old(cache).spec_limit(),
        ({
            let out = absorbed(shown_view(*old(cache)), index.spec_albums(), ready_view(ready@), old(cache).spec_limit());
            &&& shown_view(*final(cache)) == out.0
            &&& crate::art::texts_view(r.0@) == out.1.0
            &&& crate::art::texts_view(r.1@) == out.1.1
        }),
{
    let ghost rv = ready_view(ready@);
    let ghost start = shown_view(*cache);
    let ghost limit = cache.spec_limit();
    let ghost albums_of = index.spec_albums();
    let total = ready.len();
    assert(rv.len() == total);
    let mut rest = ready;
    let mut paths: Vec<String> = Vec::new();
    let mut albums: Vec<String> = Vec::new();
    let mut n: usize = 0;
    while rest.len() > 0
        invariant
            index.wf(),
            albums_of == index.spec_albums(),
            cache.wf(),
            cache.spec_limit() == limit,
            n + rest@.len() == rv.len(),
            rv.len() <= usize::MAX,
            forall|i: int| 0 <= i < rest@.len() ==> ready_view(rest@)[i] == #[trigger] rv[n + i],
            ({
                let out = absorbed(start, albums_of, rv.take(n as int), limit);
                &&& shown_view(*cache) == out.0
                &&& crate::art::texts_view(paths@) == out.1.0
                &&& crate::art::texts_view(albums@) == out.1.1
            }),
        decreases rest.len(),
    {
        let ghost st0 = shown_view(*cache);
        let ghost acc0 = (crate::art::texts_view(paths@), crate::art::texts_view(albums@));
        let ghost first = ready_view(rest@)[0];
        let ghost rest0 = rest@;
        assert(rv.take(n as int + 1).drop_last() =~= rv.take(n as int));
        assert(ready_view(rest@)[0] == rv[n + 0]);
        assert(rv[n as int] == first);
        let (key, pixels) = rest.remove(0);
        assert forall|i: int| 0 <= i < rest@.len() implies ready_view(rest@)[i] == #[trigger] rv[n + 1 + i] by {
            assert(ready_view(rest0)[i + 1] == rv[n + (i + 1)]);
        }
        match pixels {
            None => {
                store_image(cache, key, None);
            },
            Some(image) => {
                let ghost paths0 = paths@;
                paths.push(key.clone());
                assert(crate::art::texts_view(paths@) =~= acc0.0.push(key@));
                match index.album_of(key.as_str()) {
                    Some(album) => {
                        let album_key = album_image_key(album.as_str());
                        let had = match cache.get(album_key.as_str()) {
                            Some(Some(_)) => true,
                            _ => false,
                        };
                        proof {
                            lemma_shown_insert(cache.spec_images(), album_key@, None);
                            if st0.1.contains_key(album_key@) {
                                assert(st0.1[album_key@] == (cache.spec_images()[album_key@] is Some));
                            }
                        }
                        if !had {
                            store_image(cache, album_key, Some(image.clone()));
                            if !holds_text(&albums, album.as_str()) {
                                albums.push(album);
                                assert(crate::art::texts_view(albums@) =~= acc0.1.push(albums_of[key@]));
                            }
                        }
                    },
                    None => {},
                }
                store_image(cache, key, Some(image));
            },
        }
        n += 1;
    }
    assert(rv.take(n as int) =~= rv);
    (paths, albums)
}

// ---------------------------------------------------------------------------
// Which rows of the library list get which cover
// ---------------------------------------------------------------------------

/// The row indices of `keys`'s first `n` rows that hold `k` are below `n`.
proof fn lemma_rows_with_below(keys: Seq<Seq<char>>, k: Seq<char>, n: int)
    ensures
        forall|j: int| 0 <= j < rows_with(keys, k, n).len() ==> #[trigger] rows_with(keys, k, n)[j] < n,
    decreases n,
{
    if n > 0 {
        lemma_rows_with_below(keys, k, n - 1);
        let prev = rows_with(keys, k, n - 1);
        assert forall|j: int| 0 <= j < rows_with(keys, k, n).len() implies #[trigger] rows_with(keys, k, n)[j] < n by {
            if j < prev.len() {
                assert(rows_with(keys, k, n)[j] == prev[j]);
            }
        }
    }
}

/// The library list as covers reach it: which rows show each file and each
/// album, and which rows show a picture already.
pub struct UiLibrary {
    has_cover: Vec<bool>,
    by_path: KeyedMemo<Vec<usize>>,
    by_album: KeyedMemo<Vec<usize>>,
}

/// Rows with a picture, the image cache, and the covers handed out so far
/// (each a row and the cache key of its picture).
pub type CoverState = (Seq<bool>, ShownView, Seq<(usize, Seq<char>)>);

/// `idxs` (rows of one album) given the picture under `key`, each unless it
/// shows a picture already.
pub open spec fn fill_rows(has: Seq<bool>, out: Seq<(usize, Seq<char>)>, idxs: Seq<usize>, key: Seq<char>) -> (
    Seq<bool>,
    Seq<(usize, Seq<char>)>,
)
    decreases idxs.len(),
{
    if idxs.len() == 0 {
        (has, out)
    } else {
        let before = fill_rows(has, out, idxs.drop_last(), key);
        let i = idxs.last();
        if before.0[i as int] {
            before
        } else {
            (before.0.update(i as int, true), before.1.push((i, key)))
        }
    }
}

/// The cover of file `p` arriving: its row (the last showing it) gets the
/// picture under `p`, when the cache holds one.
pub open spec fn cover_by_path(st: CoverState, by_path: Map<Seq<char>, Seq<usize>>, p: Seq<char>) -> CoverState {
    if by_path.contains_key(p) && by_path[p].len() > 0 {
        let i = by_path[p].last();
        let cache = after_get(st.1, p);
        if st.1.1.contains_key(p) && st.1.1[p] {
            (st.0.update(i as int, true), cache, st.2.push((i, p)))
        } else {
            (st.0, cache, st.2)
        }
    } else {
        st
    }
}

pub open spec fn covers_by_paths(st: CoverState, by_path: Map<Seq<char>, Seq<usize>>, ps: Seq<Seq<char>>) -> CoverState
    decreases ps.len(),
{
    if ps.len() == 0 {
        st
    } else {
        cover_by_path(covers_by_paths(st, by_path, ps.drop_last()), by_path, ps.last())
    }
}

/// The cover of album `a` arriving: its rows without a picture get the
/// picture under `album:<a>`, when the cache holds one.
pub open spec fn cover_by_album(st: CoverState, by_album: Map<Seq<char>, Seq<usize>>, a: Seq<char>) -> CoverState {
    if by_album.contains_key(a) {
        let key = "album:"@ + a;
        let cache = after_get(st.1, key);
        if st.1.1.contains_key(key) && st.1.1[key] {
            let f = fill_rows(st.0, st.2, by_album[a], key);
            (f.0, cache, f.1)
        } else {
            (st.0, cache, st.2)
        }
    } else {
        st
    }
}

pub open spec fn covers_by_albums(st: CoverState, by_album: Map<Seq<char>, Seq<usize>>, al: Seq<Seq<char>>) -> CoverState
    decreases al.len(),
{
    if al.len() == 0 {
        st
    } else {
        cover_by_album(covers_by_albums(st, by_album, al.drop_last()), by_album, al.last())
    }
}

pub open spec fn assignments_view(v: Seq<(usize, String)>) -> Seq<(usize, Seq<char>)> {
    Seq::new(v.len(), |i: int| (v[i].0, v[i].1@))
}

impl UiLibrary {
    pub closed spec fn spec_has_cover(&self) -> Seq<bool> {
        self.has_cover@
    }

    pub closed spec fn spec_by_path(&self) -> Map<Seq<char>, Seq<usize>> {
        rows_of(self.by_path@)
    }

    pub closed spec fn spec_by_album(&self) -> Map<Seq<char>, Seq<usize>> {
        rows_of(self.by_album@)
    }

    /// The indexes are well formed and name rows of the list.
    pub closed spec fn wf(&self) -> bool {
        &&& self.by_path.wf()
        &&& self.by_album.wf()
        &&& forall|k: Seq<char>, j: int|
            self.spec_by_path().contains_key(k) && 0 <= j < self.spec_by_path()[k].len() ==> #[trigger] self.spec_by_path()[k][j]
                < self.has_cover@.len()
        &&& forall|k: Seq<char>, j: int|
            self.spec_by_album().contains_key(k) && 0 <= j < self.spec_by_album()[k].len() ==> #[trigger] self.spec_by_album()[k][j]
                < self.has_cover@.len()
    }

    /// The list with rows showing the files `paths` and albums `albums`,
    /// row by row, and `has_cover` telling which show a picture.
    pub fn set_tracks(paths: &[String], albums: &[String], has_cover: Vec<bool>) -> (r: Self)
        requires
            paths@.len() == has_cover@.len(),
            albums@.len() == has_cover@.len(),
        ensures
            r.wf(),
            r.spec_has_cover() == has_cover@,
            r.spec_by_path() == row_map(crate::art::texts_view(paths@), paths@.len() as int),
            r.spec_by_album() == row_map(crate::art::texts_view(albums@), albums@.len() as int),
    {
        let by_path = index_rows(paths);
        let by_album = index_rows(albums);
        let r = UiLibrary { has_cover, by_path, by_album };
        proof {
            let pv = crate::art::texts_view(paths@);
            let av = crate::art::texts_view(albums@);
            assert forall|k: Seq<char>, j: int|
                r.spec_by_path().contains_key(k) && 0 <= j < r.spec_by_path()[k].len() implies #[trigger] r.spec_by_path()[k][j]
                < r.has_cover@.len() by {
                lemma_rows_with_below(pv, k, paths@.len() as int);
                assert(r.spec_by_path()[k] == rows_with(pv, k, paths@.len() as int));
            }
            assert forall|k: Seq<char>, j: int|
                r.spec_by_album().contains_key(k) && 0 <= j < r.spec_by_album()[k].len() implies #[trigger] r.spec_by_album()[k][j]
                < r.has_cover@.len() by {
                lemma_rows_with_below(av, k, albums@.len() as int);
                assert(r.spec_by_album()[k] == rows_with(av, k, albums@.len() as int));
            }
        }
        r
    }

    /// The rows among `indices` that the list has, in order.
    pub fn get_filtered(&self, indices: &[usize]) -> (r: Vec<usize>)
        ensures
            r@ == indices@.filter(|i: usize| i < self.spec_has_cover().len()),
    {
        let mut out: Vec<usize> = Vec::new();
        let mut k: usize = 0;
        while k < indices.len()
            invariant
                k <= indices@.len(),
                out@ == indices@.take(k as int).filter(|i: usize| i < self.spec_has_cover().len()),
            decreases indices.len() - k,
        {
            proof {
                reveal(Seq::filter);
                assert(indices@.take(k + 1).drop_last() =~= indices@.take(k as int));
                assert(indices@.take(k + 1).last() == indices@[k as int]);
            }
            if indices[k] < self.has_cover.len() {
                out.push(indices[k]);
            }
            k += 1;
        }
        assert(indices@.take(k as int) =~= indices@);
        out
    }

    /// Hands out the covers that arrived for files `paths` and albums
    /// `albums`: each file's row gets its own picture from the cache, then
    /// each album's rows that still show none get the album's picture. The
    /// rows handed a picture now show one; the cache sees a look-up for each
    /// file and album the list shows.
    pub fn patch_covers<V>(&mut self, paths: &[String], albums: &[String], cache: &mut UiImageCache<Option<V>>) -> (r: Vec<(usize, String)>)
        requires
            old(self).wf(),
            old(cache).wf(),
        ensures
            final(self).wf(),
            final(self).spec_by_path() == old(self).spec_by_path(),
            final(self).spec_by_album() == old(self).spec_by_album(),
            final(cache).wf(),
            final(cache).spec_limit() == old(cache).spec_limit(),
            final(cache).spec_images() == old(cache).spec_images(),
            ({
                let s0: CoverState = (old(self).spec_has_cover(), shown_view(*old(cache)), Seq::empty());
                let s1 = covers_by_paths(s0, old(self).spec_by_path(), crate::art::texts_view(paths@));
                let s2 = covers_by_albums(s1, old(self).spec_by_album(), crate::art::texts_view(albums@));
                &&& final(self).spec_has_cover() == s2.0
                &&& shown_view(*final(cache)) == s2.1
                &&& assignments_view(r@) == s2.2
            }),
    {
        let ghost pv = crate::art::texts_view(paths@);
        let ghost av = crate::art::texts_view(albums@);
        let ghost s0: CoverState = (self.spec_has_cover(), shown_view(*cache), Seq::empty());
        let ghost images0 = cache.spec_images();
        let ghost by_path = self.spec_by_path();
        let ghost by_album = self.spec_by_album();
        let mut out: Vec<(usize, String)> = Vec::new();
        let mut k: usize = 0;
        while k < paths.len()
            invariant
                k <= paths@.len(),
                pv == crate::art::texts_view(paths@),
                self.wf(),
                self.spec_by_path() == by_path,
                self.spec_by_album() == by_album,
                cache.wf(),
                cache.spec_limit() == old(cache).spec_limit(),
                cache.spec_images() == images0,
                ({
                    let s = covers_by_paths(s0, by_path, pv.take(k as int));
                    &&& self.spec_has_cover() == s.0
                    &&& shown_view(*cache) == s.1
                    &&& assignments_view(out@) == s.2
                }),
            decreases paths.len() - k,
        {
            assert(pv.take(k + 1).drop_last() =~= pv.take(k as int));
            assert(pv.take(k + 1).last() == paths@[k as int]@);
            let p = paths[k].as_str();
            let row = match self.by_path.get(p) {
                Some(rows) => if rows.len() > 0 {
                    assert(self.spec_by_path()[p@] == rows@);
                    Some(rows[rows.len() - 1])
                } else {
                    None
                },
                None => None,
            };
            match row {
                Some(i) => {
                    let ghost st = shown_view(*cache);
                    let pictured = match cache.get(p) {
                        Some(Some(_)) => true,
                        _ => false,
                    };
                    proof {
                        if st.1.contains_key(p@) {
                            assert(st.1[p@] == (images0[p@] is Some));
                        }
                    }
                    if pictured {
                        assert(i < self.has_cover@.len());
                        self.has_cover.set(i, true);
                        let ghost before = out@;
                        out.push((i, paths[k].clone()));
                        assert(assignments_view(out@) =~= assignments_view(before).push((i, p@)));
                    }
                },
                None => {},
            }
            k += 1;
        }
        assert(pv.take(k as int) =~= pv);
        let ghost s1 = covers_by_paths(s0, by_path, pv);
        let mut m: usize = 0;
        while m < albums.len()
            invariant
                m <= albums@.len(),
                av == crate::art::texts_view(albums@),
                self.wf(),
                self.spec_by_path() == by_path,
                self.spec_by_album() == by_album,
                cache.wf(),
                cache.spec_limit() == old(cache).spec_limit(),
                cache.spec_images() == images0,
                ({
                    let s = covers_by_albums(s1, by_album, av.take(m as int));
                    &&& self.spec_has_cover() == s.0
                    &&& shown_view(*cache) == s.1
                    &&& assignments_view(out@) == s.2
                }),
            decreases albums.len() - m,
        {
            assert(av.take(m + 1).drop_last() =~= av.take(m as int));
            assert(av.take(m + 1).last() == albums@[m as int]@);
            let a = albums[m].as_str();
            let rows = match self.by_album.get(a) {
                Some(rows) => {
                    assert(self.spec_by_album()[a@] == rows@);
                    Some(copy_indices_of(rows))
                },
                None => None,
            };
            match rows {
                Some(rows) => {
                    let key = album_image_key(a);
                    let ghost st = shown_view(*cache);
                    let pictured = match cache.get(key.as_str()) {
                        Some(Some(_)) => true,
                        _ => false,
                    };
                    proof {
                        if st.1.contains_key(key@) {
                            assert(st.1[key@] == (images0[key@] is Some));
                        }
                    }
                    if pictured {
                        let mut j: usize = 0;
                        let ghost has0 = self.spec_has_cover();
                        let ghost out0 = assignments_view(out@);
                        while j < rows.len()
                            invariant
                                j <= rows@.len(),
                                rows@ == by_album[a@],
                                by_album.contains_key(a@),
                                self.wf(),
                                self.spec_by_path() == by_path,
                                self.spec_by_album() == by_album,
                                self.has_cover@.len() == has0.len(),
                                ({
                                    let f = fill_rows(has0, out0, rows@.take(j as int), key@);
                                    &&& self.spec_has_cover() == f.0
                                    &&& assignments_view(out@) == f.1
                                }),
                            decreases rows.len() - j,
                        {
                            assert(rows@.take(j + 1).drop_last() =~= rows@.take(j as int));
                            let i = rows[j];
                            assert(i < self.has_cover@.len());
                            if !self.has_cover[i] {
                                self.has_cover.set(i, true);
                                let ghost before = out@;
                                out.push((i, key.clone()));
                                assert(assignments_view(out@) =~= assignments_view(before).push((i, key@)));
                            }
                            j += 1;
                        }
                        assert(rows@.take(j as int) =~= rows@);
                    }
                },
                None => {},
            }
            m += 1;
        }
        assert(av.take(m as int) =~= av);
        out
    }
}

fn copy_indices_of(v: &Vec<usize>) -> (r: Vec<usize>)
    ensures
        r@ == v@,
{
    let mut r: Vec<usize> = Vec::new();
    let mut i: usize = 0;
    while i < v.len()
        invariant
            i <= v@.len(),
            r@ == v@.take(i as int),
        decreases v.len() - i,
    {
        r.push(v[i]);
        i += 1;
        assert(r@ =~= v@.take(i as int));
    }
    assert(v@.take(i as int) =~= v@);
    r
}

} // verus!
