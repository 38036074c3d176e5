//! Playing the images of a folder or the frames of an animation: what to load next,
//! and when.

use vstd::prelude::*;
use rand::seq::SliceRandom;
use crate::gui::NextUpdate;
use crate::image_cache::cache::{
    checked_index, curr_path, with_dir, CacheError, ImageCache, index_outcome, jump_outcome,
    specific_outcome, target_safe, name_view, has_key, entry, CacheState, marked_for_update,
    process_ids, prefetch_walk, image_items, request_step, INITIAL_SIZE_ESTIMATE,
};
use crate::image_cache::directory::{
    curr_item, curr_name, directory_updated, filter_checked, filter_done, images_after_check,
    Error as DirError, ListedEntry,
};
use crate::image_cache::{frame_fits, AnimationFrameTexture, MAX_FRAME_DELAY_NANOS};

verus! {

/// Nanoseconds in a second.
pub const NANOS_PER_SEC: u64 = 1_000_000_000;

/// How long a folder playback shows each image: 25 images a second.
pub const FOLDER_FRAME_NANOS: u64 = 40_000_000;

/// How long a presentation shows each image: six seconds.
pub const PRESENT_FRAME_NANOS: u64 = 6_000_000_000;

/// How soon to try again while waiting on the loader: 50 ms.
pub const RETRY_NANOS: u64 = 50_000_000;

/// The latest instant handled, in nanoseconds of the monotonic clock (about 73 years).
pub const MAX_TIME: u64 = 0x1fff_ffff_ffff_ffff;

/// A file to open, with where it lies: its folder and file name (no file name for a
/// folder), or why these could not be found; and the listing of that folder.
#[derive(Debug)]
pub struct FileTarget {
    pub path: String,
    pub location: Result<(String, Option<String>), String>,
    pub listing: Result<Vec<ListedEntry>, String>,
}

/// What to load on the next update.
#[derive(Debug)]
pub enum LoadRequest {
    /// Nothing to load.
    Nothing,
    LoadNext,
    LoadPrevious,
    FilePath(FileTarget),
    LoadAtIndex(usize),
    Jump(i32),
}

/// How the player advances.
#[derive(Debug, Clone, Copy, PartialEq, Eq, Structural)]
pub enum PlaybackState {
    Paused,
    Forward,
    Present,
    RandomPresent,
}

/// The file whose image is shown.
#[derive(Debug, Clone)]
pub enum LoadedImgPath {
    NotYetLoaded,
    ErrLoading(String),
    Loaded(String),
}

impl LoadedImgPath {
    /// Whether an image was loaded.
    pub fn is_loaded(&self) -> (r: bool)
        ensures
            r == (self is Loaded),
    {
        match self {
            LoadedImgPath::Loaded(_) => true,
            _ => false,
        }
    }
}

/// What a player steps through: the images of the folder, or the frames of the
/// current image.
#[derive(Debug, Clone, Copy, PartialEq, Eq, Structural)]
pub enum PlaybackKind {
    Folder,
    Anim,
}

/// Shuffles `v` in place with the thread's random generator.
#[verifier::external_body]
fn shuffle_indices(v: &mut Vec<usize>)
    ensures
        final(v)@.to_multiset() == old(v)@.to_multiset(),
{
    v.as_mut_slice().shuffle(&mut rand::thread_rng());
}

/// How long the current frame is shown, in nanoseconds: six seconds in a presentation,
/// else 40 ms for a folder, else the delay of the shown frame (zero when none).
pub open spec fn frame_delta(state: PlaybackState, kind: PlaybackKind, shown_delay: Option<u64>) -> int {
    match state {
        PlaybackState::Present | PlaybackState::RandomPresent => PRESENT_FRAME_NANOS as int,
        _ => match kind {
            PlaybackKind::Folder => FOLDER_FRAME_NANOS as int,
            PlaybackKind::Anim => match shown_delay {
                Some(d) => d as int,
                None => 0,
            },
        },
    }
}

/// How many milliseconds to wait before looking again when `nanos_til_next` remain
/// until the next frame: half of them, at least one.
pub open spec fn wait_millis(nanos_til_next: int) -> int {
    if nanos_til_next >= 2_000_000 {
        (nanos_til_next / 1_000_000) / 2
    } else {
        1
    }
}

/// How many frames are due after `elapsed` nanoseconds, with frames `delta` long.
pub open spec fn frames_due(elapsed: int, delta: int) -> int {
    if delta > 0 {
        elapsed / delta
    } else {
        0
    }
}

/// Close enough to the next frame to poll: more than four fifths of the frame time
/// has passed.
pub open spec fn near_next_frame(elapsed: int, delta: int) -> bool {
    elapsed * 5 > delta * 4
}

/// A player of a folder or of an animation.
pub struct ImgSequencePlayer<F> {
    kind: PlaybackKind,
    playback_state: PlaybackState,
    /// The image indices still to show in a random presentation; the last is next.
    present_remaining: Vec<usize>,
    last_frame_change_time: u64,
    /// How far the last frame change was behind its schedule, in nanoseconds.
    frametime_drift_offset: i64,
    load_request: LoadRequest,
    image_texture: Option<AnimationFrameTexture<F>>,
    file_path: LoadedImgPath,
}

impl<F> ImgSequencePlayer<F> {
    pub closed spec fn kind(&self) -> PlaybackKind {
        self.kind
    }

    pub closed spec fn state(&self) -> PlaybackState {
        self.playback_state
    }

    pub closed spec fn remaining(&self) -> Seq<usize> {
        self.present_remaining@
    }

    pub closed spec fn last_change(&self) -> u64 {
        self.last_frame_change_time
    }

    pub closed spec fn drift(&self) -> i64 {
        self.frametime_drift_offset
    }

    pub closed spec fn request(&self) -> LoadRequest {
        self.load_request
    }

    pub closed spec fn shown(&self) -> Option<AnimationFrameTexture<F>> {
        self.image_texture
    }

    pub closed spec fn path(&self) -> LoadedImgPath {
        self.file_path
    }

    /// The delay of the shown frame, if any.
    pub open spec fn shown_delay(&self) -> Option<u64> {
        match self.shown() {
            Some(f) => Some(f.delay_nano),
            None => None,
        }
    }

    /// The clock readings stay within range: the drift is behind the last change, and
    /// the shown frame's delay is bounded.
    pub open spec fn wf(&self) -> bool {
        &&& 0 <= self.drift() <= self.last_change() <= MAX_TIME
        &&& self.shown() matches Some(f) ==> f.delay_nano <= MAX_FRAME_DELAY_NANOS
    }

    /// A paused player with nothing loaded, started at the instant `now`.
    pub fn new(kind: PlaybackKind, now: u64) -> (r: Self)
        requires
            now <= MAX_TIME,
        ensures
            r.wf(),
            r.kind() == kind,
            r.state() == PlaybackState::Paused,
            r.remaining() == Seq::<usize>::empty(),
            r.last_change() == now,
            r.drift() == 0,
            r.request() is Nothing,
            r.shown() is None,
            r.path() is NotYetLoaded,
    {
        ImgSequencePlayer {
            kind,
            playback_state: PlaybackState::Paused,
            present_remaining: Vec::new(),
            last_frame_change_time: now,
            frametime_drift_offset: 0,
            load_request: LoadRequest::Nothing,
            image_texture: None,
            file_path: LoadedImgPath::NotYetLoaded,
        }
    }

    /// How the player advances.
    pub fn playback_state(&self) -> (r: PlaybackState)
        ensures
            r == self.state(),
    {
        self.playback_state
    }

    /// Starts playing forward at the instant `now`.
    pub fn start_playback_forward(&mut self, now: u64)
        requires
            old(self).wf(),
            now <= MAX_TIME,
        ensures
            final(self).wf(),
            final(self).state() == PlaybackState::Forward,
            final(self).last_change() == now,
            final(self).drift() == 0,
            final(self).kind() == old(self).kind(),
            final(self).remaining() == old(self).remaining(),
            final(self).request() == old(self).request(),
            final(self).shown() == old(self).shown(),
            final(self).path() == old(self).path(),
    {
        self.last_frame_change_time = now;
        self.frametime_drift_offset = 0;
        self.playback_state = PlaybackState::Forward;
    }

    /// Stops advancing.
    pub fn pause_playback(&mut self)
        ensures
            final(self).state() == PlaybackState::Paused,
            final(self).kind() == old(self).kind(),
            final(self).remaining() == old(self).remaining(),
            final(self).last_change() == old(self).last_change(),
            final(self).drift() == old(self).drift(),
            final(self).request() == old(self).request(),
            final(self).shown() == old(self).shown(),
            final(self).path() == old(self).path(),
    {
        self.playback_state = PlaybackState::Paused;
    }

    /// Starts a presentation at the instant `now`.
    pub fn start_presentation(&mut self, now: u64)
        requires
            old(self).wf(),
            now <= MAX_TIME,
        ensures
            final(self).wf(),
            final(self).state() == PlaybackState::Present,
            final(self).last_change() == now,
            final(self).drift() == 0,
            final(self).kind() == old(self).kind(),
            final(self).remaining() == old(self).remaining(),
            final(self).request() == old(self).request(),
            final(self).shown() == old(self).shown(),
            final(self).path() == old(self).path(),
    {
        self.last_frame_change_time = now;
        self.frametime_drift_offset = 0;
        self.playback_state = PlaybackState::Present;
    }

    /// Sets what to load on the next update, replacing any earlier request.
    pub fn request_load(&mut self, request: LoadRequest)
        ensures
            final(self).request() == request,
            final(self).kind() == old(self).kind(),
            final(self).state() == old(self).state(),
            final(self).remaining() == old(self).remaining(),
            final(self).last_change() == old(self).last_change(),
            final(self).drift() == old(self).drift(),
            final(self).shown() == old(self).shown(),
            final(self).path() == old(self).path(),
    {
        self.load_request = request;
    }

    /// The file whose image is shown.
    pub fn shown_file_path(&self) -> (r: &LoadedImgPath)
        ensures
            *r == self.path(),
    {
        &self.file_path
    }

    /// What will be loaded on the next update.
    pub fn pending_request(&self) -> (r: &LoadRequest)
        ensures
            *r == self.request(),
    {
        &self.load_request
    }

    /// How long the shown frame stays, in nanoseconds: see `frame_delta`.
    fn delay_nanos(&self) -> (r: u64)
        ensures
            r == frame_delta(self.state(), self.kind(), self.shown_delay()),
    {
        match self.playback_state {
            PlaybackState::Present | PlaybackState::RandomPresent => PRESENT_FRAME_NANOS,
            _ => match self.kind {
                PlaybackKind::Folder => FOLDER_FRAME_NANOS,
                PlaybackKind::Anim => match &self.image_texture {
                    Some(frame) => frame.delay_nano,
                    None => 0,
                },
            },
        }
    }
}

impl<F: Clone> ImgSequencePlayer<F> {
    /// A copy of the shown frame.
    pub fn image_texture(&self) -> (r: Option<AnimationFrameTexture<F>>)
        ensures
            match self.shown() {
                Some(f) => r matches Some(g) && crate::image_cache::cache::same_frame(f, g),
                None => r is None,
            },
    {
        match &self.image_texture {
            Some(f) => Some(f.clone()),
            None => None,
        }
    }
}

/// The nanoseconds since the last frame change, counting the drift it was behind.
pub open spec fn elapsed_at<F>(p: ImgSequencePlayer<F>, now: u64) -> int {
    (if now >= p.last_change() {
        now - p.last_change()
    } else {
        0
    }) + p.drift()
}

/// A frame change is due at the instant `now`.
pub open spec fn frame_due<F>(p: ImgSequencePlayer<F>, now: u64) -> bool {
    frames_due(elapsed_at(p, now), frame_delta(p.state(), p.kind(), p.shown_delay())) > 0
}

/// The request acted on at the instant `now`: the one given, or, for a playing player
/// with none and a frame due, a step of one (or an index, for a random presentation).
pub open spec fn effective_request<F>(p: ImgSequencePlayer<F>, now: u64) -> LoadRequest {
    if !(p.request() is Nothing) {
        p.request()
    } else if p.state() is Forward || p.state() is Present {
        if frame_due(p, now) {
            LoadRequest::Jump(1)
        } else {
            LoadRequest::Nothing
        }
    } else {
        LoadRequest::Nothing
    }
}

/// A presentation shows each image for six seconds, whatever the player plays and
/// whatever frame it shows: less than six seconds after the last frame change (counting
/// the drift) no change is due, and a presenting player with no request pending asks
/// for no step; from six seconds on a change is due and the step is one image. A folder
/// played forward changes frames every 40 ms, an animation after the delay of the frame
/// it shows (at once when it shows none).
pub proof fn lemma_presentation_frame_time<F>(p: ImgSequencePlayer<F>, now: u64)
    ensures
        (p.state() is Present || p.state() is RandomPresent) ==> frame_delta(
            p.state(),
            p.kind(),
            p.shown_delay(),
        ) == 6_000_000_000,
        (p.state() is Present || p.state() is RandomPresent) && elapsed_at(p, now) < 6_000_000_000
            ==> !frame_due(p, now),
        (p.state() is Present || p.state() is RandomPresent) && elapsed_at(p, now) >= 6_000_000_000
            ==> frame_due(p, now),
        (p.state() is Present || p.state() is RandomPresent) && p.drift() == 0 && p.last_change()
            <= now < p.last_change() + 6_000_000_000 ==> !frame_due(p, now),
        p.state() is Present && p.request() is Nothing && elapsed_at(p, now) < 6_000_000_000
            ==> effective_request(p, now) is Nothing,
        p.state() is Present && p.request() is Nothing && elapsed_at(p, now) >= 6_000_000_000
            ==> effective_request(p, now) == LoadRequest::Jump(1),
        p.state() is Forward && p.kind() is Folder ==> frame_delta(p.state(), p.kind(), p.shown_delay())
            == 40_000_000,
        p.state() is Forward && p.kind() is Anim ==> frame_delta(p.state(), p.kind(), p.shown_delay())
            == match p.shown() {
            Some(f) => f.delay_nano as int,
            None => 0,
        },
{
}

/// The step through the folder (`.0`, in images) and through the current image
/// (`.1`, in frames) that a request makes; zero for requests that do not step.
pub open spec fn request_steps(kind: PlaybackKind, request: LoadRequest) -> (int, int) {
    match request {
        LoadRequest::LoadNext => match kind {
            PlaybackKind::Folder => (1, 0),
            PlaybackKind::Anim => (0, 1),
        },
        LoadRequest::LoadPrevious => match kind {
            PlaybackKind::Folder => (-1, 0),
            PlaybackKind::Anim => (0, -1),
        },
        LoadRequest::Jump(n) => match kind {
            PlaybackKind::Folder => (n as int, 0),
            PlaybackKind::Anim => (0, n as int),
        },
        _ => (0, 0),
    }
}

/// Carrying out `request` has what it needs: a file named in the open folder has an
/// image index, and a step of one image has a current file.
pub open spec fn request_safe<F>(kind: PlaybackKind, request: LoadRequest, c: ImageCache<F>) -> bool {
    match request {
        LoadRequest::FilePath(t) => t.location matches Ok(loc) ==> target_safe(
            c.dir(),
            loc.0@,
            opt_name(loc.1),
            t.listing,
        ),
        LoadRequest::LoadNext | LoadRequest::LoadPrevious | LoadRequest::Jump(_) => {
            let st = request_steps(kind, request);
            st.0 == 1 || st.0 == -1 ==> curr_item(c.dir()) is Some
        },
        _ => true,
    }
}

/// The update can go ahead without failing at the instant `now`: the clock moves
/// forward within range, the cache is sound, and the load it leads to (unless the
/// folder is known to hold no image and the load would step through it) has what it
/// needs (see `request_safe`).
pub open spec fn update_safe<F>(p: ImgSequencePlayer<F>, now: u64, c: ImageCache<F>) -> bool {
    let req = effective_request(p, now);
    let empty = c.is_known_empty();
    &&& p.wf()
    &&& p.last_change() <= now <= MAX_TIME
    &&& c.wf()
    &&& c.dir_safe()
    &&& ((!empty || req is FilePath) ==> request_safe(p.kind(), req, c))
}

/// What a load answered: the frame with the path of its file, or the error with the
/// path it concerns.
pub type LoadOutcome<F> = Result<(AnimationFrameTexture<F>, String), (CacheError, String)>;

/// The player after a load answered `outcome`, having shown `shown0` from `path0`
/// with `request0` pending: a frame is shown with its path; while the loader or the
/// folder filter is busy, the load is asked again (the answer is to look again after
/// `RETRY_NANOS`); with no current file nothing is shown; another error shows nothing
/// and records the path. Also answers whether to look again soon.
pub open spec fn settled<F>(
    shown0: Option<AnimationFrameTexture<F>>,
    path0: LoadedImgPath,
    request0: LoadRequest,
    p2: ImgSequencePlayer<F>,
    outcome: LoadOutcome<F>,
) -> (bool, bool) {
    (
        match outcome {
            Ok(fp) => p2.shown() == Some(fp.0) && p2.path() == LoadedImgPath::Loaded(fp.1)
                && p2.request() == request0,
            Err(ep) => match ep.0 {
                CacheError::WaitingOnLoader | CacheError::WaitingOnDirFilter => p2.request()
                    == LoadRequest::Jump(0) && p2.shown() == shown0 && p2.path() == path0,
                CacheError::NoCurrentFile => p2.shown() is None && p2.path() is NotYetLoaded
                    && p2.request() == request0,
                _ => p2.shown() is None && p2.path() == LoadedImgPath::ErrLoading(ep.1) && p2.request()
                    == request0,
            },
        },
        outcome matches Err(ep) && (ep.0 is WaitingOnLoader || ep.0 is WaitingOnDirFilter),
    )
}

/// Two checks for the filter's output in a row do what one does.
pub proof fn lemma_filter_checked_twice(a: crate::image_cache::directory::Directory, b: crate::image_cache::directory::Directory, c: crate::image_cache::directory::Directory)
    requires
        filter_checked(a, b),
        filter_checked(b, c),
    ensures
        filter_checked(a, c),
{
}

/// The cache `c1` once the waiting results of `c` are handled, request by request in
/// some order (see `ImageCache::process_prefetched`).
pub open spec fn results_handled<F>(c: ImageCache<F>, c1: ImageCache<F>) -> bool {
    &&& c1.dir() == c.dir()
    &&& c1.frame_index() == c.frame_index()
    &&& c1.total() == c.total()
    &&& exists|ids: Seq<u32>|
        ids.no_duplicates() && ids.to_set() == c.pending().dom() && c1.state() == #[trigger] process_ids(
            c.state(),
            ids,
        )
}

/// The cache `c1` once `c` requests the images after the current one (see
/// `ImageCache::prefetch_neighbors`).
pub open spec fn neighbours_requested<F>(c: ImageCache<F>, c1: ImageCache<F>) -> bool {
    &&& filter_checked(c.dir(), c1.dir())
    &&& c1.frame_index() == c.frame_index()
    &&& c1.total() == c.total()
    &&& c1.state() == (if filter_done(c.dir()) {
        prefetch_walk(c.state(), image_items(c1.dir()), c1.dir().curr_image() as int, c.remaining() as int)
    } else {
        c.state()
    })
}

/// The cache `c1` once `c` requests the image `index` of the folder (see
/// `ImageCache::prefetch_at_index`).
pub open spec fn index_requested<F>(c: ImageCache<F>, index: usize, c1: ImageCache<F>) -> bool {
    &&& c1.frame_index() == c.frame_index()
    &&& c1.total() == c.total()
    &&& c.remaining() > INITIAL_SIZE_ESTIMATE ==> filter_checked(c.dir(), c1.dir())
    &&& c.remaining() <= INITIAL_SIZE_ESTIMATE ==> c1.dir() == c.dir()
    &&& if c.remaining() > INITIAL_SIZE_ESTIMATE && filter_done(c.dir()) && index
        < c1.dir().image_files().len() {
        let item = image_items(c1.dir())[index as int];
        c1.state() == request_step(c.state(), item.path, item.request_id, item.modified, false).0
    } else {
        c1.state() == c.state()
    }
}

/// What the player's clock does to the cache at the instant `now`: when a frame is
/// due, only the filter's output may be taken (to refill a random presentation);
/// otherwise the waiting results are handled and, unless the next frame is close,
/// the next image of a random presentation or the neighbours are requested.
pub open spec fn clock_cache<F>(p: ImgSequencePlayer<F>, now: u64, c: ImageCache<F>, c1: ImageCache<F>) -> bool {
    let e = elapsed_at(p, now);
    let d = frame_delta(p.state(), p.kind(), p.shown_delay());
    if frames_due(e, d) > 0 {
        &&& c1.state() == c.state()
        &&& c1.frame_index() == c.frame_index()
        &&& c1.total() == c.total()
        &&& (c1.dir() == c.dir() || filter_checked(c.dir(), c1.dir()))
    } else {
        exists|c0: ImageCache<F>|
            #[trigger] results_handled(c, c0) && if near_next_frame(e, d) {
                c1 == c0
            } else if p.state() is RandomPresent {
                if p.remaining().len() > 0 {
                    index_requested(c0, p.remaining().last(), c1)
                } else {
                    c1 == c0
                }
            } else {
                neighbours_requested(c0, c1)
            }
    }
}

/// The cache `c1` that an update of the player `p` at the instant `now` loads from,
/// starting from `c`: a paused player handles the waiting results and, unless it
/// retries a load, requests the neighbours; a playing player without a request follows
/// its clock (see `clock_cache`); one with a request leaves the cache as it is.
pub open spec fn cache_before_load<F>(p: ImgSequencePlayer<F>, now: u64, c: ImageCache<F>, c1: ImageCache<F>) -> bool {
    if p.state() is Paused {
        exists|c0: ImageCache<F>|
            #[trigger] results_handled(c, c0) && if p.request() == LoadRequest::Jump(0) {
                c1 == c0
            } else {
                neighbours_requested(c0, c1)
            }
    } else if p.request() is Nothing {
        clock_cache(p, now, c, c1)
    } else {
        c1 == c
    }
}

impl<F: Clone> ImgSequencePlayer<F> {
    /// Refills the order of a random presentation: every image index once, shuffled.
    /// `false`, with the order left empty, while the folder is being filtered.
    fn fill_present_remaining(&mut self, cache: &mut ImageCache<F>) -> (r: bool)
        requires
            old(self).wf(),
            old(cache).wf(),
            old(cache).dir_safe(),
        ensures
            final(self).wf(),
            final(cache).wf(),
            final(cache).dir_safe(),
            filter_checked(old(cache).dir(), final(cache).dir()),
            final(cache).state() == old(cache).state(),
            final(cache).frame_index() == old(cache).frame_index(),
            final(cache).total() == old(cache).total(),
            r == filter_done(old(cache).dir()),
            r ==> final(self).remaining().to_multiset() == Seq::new(
                final(cache).dir().image_files().len(),
                |i: int| i as usize,
            ).to_multiset(),
            !r ==> final(self).remaining() == Seq::<usize>::empty(),
            final(self).kind() == old(self).kind(),
            final(self).state() == old(self).state(),
            final(self).last_change() == old(self).last_change(),
            final(self).drift() == old(self).drift(),
            final(self).request() == old(self).request(),
            final(self).shown() == old(self).shown(),
            final(self).path() == old(self).path(),
    {
        match cache.current_dir_len() {
            Some(dir_len) => {
                let mut order: Vec<usize> = Vec::new();
                let mut i: usize = 0;
                while i < dir_len
                    invariant
                        0 <= i <= dir_len,
                        order@ == Seq::new(i as nat, |j: int| j as usize),
                    decreases dir_len - i,
                {
                    order.push(i);
                    proof {
                        assert(order@ =~= Seq::new((i + 1) as nat, |j: int| j as usize));
                    }
                    i = i + 1;
                }
                proof {
                    cache.dir().lemma_lengths_fit();
                }
                shuffle_indices(&mut order);
                self.present_remaining = order;
                true
            },
            None => {
                self.present_remaining = Vec::new();
                false
            },
        }
    }

    /// Starts a random presentation at the instant `now`: every image once, in a
    /// shuffled order. `false` while the folder is being filtered.
    pub fn start_random_presentation(&mut self, now: u64, cache: &mut ImageCache<F>) -> (r: bool)
        requires
            old(self).wf(),
            now <= MAX_TIME,
            old(cache).wf(),
            old(cache).dir_safe(),
        ensures
            final(self).wf(),
            final(cache).wf(),
            final(cache).dir_safe(),
            final(self).state() == PlaybackState::RandomPresent,
            final(self).last_change() == now,
            final(self).drift() == 0,
            filter_checked(old(cache).dir(), final(cache).dir()),
            final(cache).state() == old(cache).state(),
            final(cache).frame_index() == old(cache).frame_index(),
            final(cache).total() == old(cache).total(),
            r == filter_done(old(cache).dir()),
            r ==> final(self).remaining().to_multiset() == Seq::new(
                final(cache).dir().image_files().len(),
                |i: int| i as usize,
            ).to_multiset(),
            !r ==> final(self).remaining() == Seq::<usize>::empty(),
            final(self).kind() == old(self).kind(),
            final(self).request() == old(self).request(),
            final(self).shown() == old(self).shown(),
            final(self).path() == old(self).path(),
    {
        self.last_frame_change_time = now;
        self.frametime_drift_offset = 0;
        self.playback_state = PlaybackState::RandomPresent;
        self.fill_present_remaining(cache)
    }
}

/// `outcome` is the answer `r` of a cache load, an error carrying the path `path`.
pub open spec fn outcome_of<F>(
    r: Result<(AnimationFrameTexture<F>, String), CacheError>,
    path: Seq<char>,
    outcome: LoadOutcome<F>,
) -> bool {
    match r {
        Ok(x) => outcome == Ok::<(AnimationFrameTexture<F>, String), (CacheError, String)>(x),
        Err(e) => outcome matches Err(ep) && ep.0 == e && ep.1@ == path,
    }
}

/// The text of an optional file name.
pub open spec fn opt_name(n: Option<String>) -> Option<Seq<char>> {
    match n {
        Some(x) => Some(x@),
        None => None,
    }
}

/// The image and frame jumps a stepping request makes.
pub open spec fn jump_args(kind: PlaybackKind, request: LoadRequest) -> (i32, isize) {
    match request {
        LoadRequest::LoadNext => match kind {
            PlaybackKind::Folder => (1i32, 0isize),
            PlaybackKind::Anim => (0i32, 1isize),
        },
        LoadRequest::LoadPrevious => match kind {
            PlaybackKind::Folder => (-1i32, 0isize),
            PlaybackKind::Anim => (0i32, -1isize),
        },
        LoadRequest::Jump(n) => match kind {
            PlaybackKind::Folder => (n, 0isize),
            PlaybackKind::Anim => (0i32, n as isize),
        },
        _ => (0i32, 0isize),
    }
}

/// What carrying out `request` does to the cache (`c` to `c2`) and answers: a folder
/// player steps through the images, an animation player through the frames of the
/// current image; a file is loaded by its folder and name. `None` for no request.
pub open spec fn performed<F: Clone>(
    kind: PlaybackKind,
    request: LoadRequest,
    c: ImageCache<F>,
    c2: ImageCache<F>,
    outcome: Option<LoadOutcome<F>>,
) -> bool {
    let v = c.full();
    let v2 = c2.full();
    let total = c.total();
    match request {
        LoadRequest::Nothing => outcome is None && v2 == v,
        LoadRequest::FilePath(t) => match t.location {
            Ok(loc) => exists|r: Result<AnimationFrameTexture<F>, CacheError>|
                #[trigger] specific_outcome(v, v2, total, loc.0@, opt_name(loc.1), t.listing, None, r)
                    && match r {
                    Ok(f) => outcome == Some(
                        Ok::<(AnimationFrameTexture<F>, String), (CacheError, String)>((f, t.path)),
                    ),
                    Err(e) => outcome == Some(
                        Err::<(AnimationFrameTexture<F>, String), (CacheError, String)>((e, t.path)),
                    ),
                },
            Err(msg) => v2 == v && outcome == Some(
                Err::<(AnimationFrameTexture<F>, String), (CacheError, String)>(
                    (CacheError::Directory(DirError::Other(msg)), t.path),
                ),
            ),
        },
        LoadRequest::LoadAtIndex(i) => match kind {
            PlaybackKind::Folder => exists|r: Result<(AnimationFrameTexture<F>, String), CacheError>|
                #[trigger] index_outcome(v, v2, total, i, None, r) && (outcome matches Some(o)
                    && outcome_of(r, curr_path(v2.dir), o)),
            PlaybackKind::Anim => exists|d: ImageCache<F>|
                #[trigger] filter_checked(v.dir, d.dir()) && match checked_index(v.dir, d.dir()) {
                    Some(ci) => exists|r: Result<(AnimationFrameTexture<F>, String), CacheError>|
                        #[trigger] index_outcome(with_dir(v, d.dir()), v2, total, ci, Some(i as isize), r)
                            && (outcome matches Some(o) && outcome_of(r, curr_path(v2.dir), o)),
                    None => v2 == with_dir(v, d.dir()) && (outcome matches Some(o) && o matches Err(ep)
                        && ep.0 is WaitingOnDirFilter && ep.1@ == curr_path(v2.dir)),
                },
        },
        _ => {
            let (fj, frj) = jump_args(kind, request);
            exists|r: Result<(AnimationFrameTexture<F>, String), CacheError>|
                #[trigger] jump_outcome(v, v2, total, fj, frj, r) && (outcome matches Some(o)
                    && outcome_of(r, curr_path(v2.dir), o))
        },
    }
}

/// Turns a cache answer into a load outcome, an error carrying the current path.
fn with_current_path<F>(
    r: Result<(AnimationFrameTexture<F>, String), CacheError>,
    cache: &ImageCache<F>,
) -> (o: LoadOutcome<F>)
    ensures
        outcome_of(r, curr_path(cache.dir()), o),
{
    match r {
        Ok(x) => Ok(x),
        Err(e) => {
            let path = match cache.current_file_path() {
                Some(p) => p,
                None => String::new(),
            };
            Err((e, path))
        },
    }
}

/// Carries out `request` on the cache: see `performed`.
fn perform_load<F: Clone>(kind: PlaybackKind, request: LoadRequest, cache: &mut ImageCache<F>) -> (o:
    Option<LoadOutcome<F>>)
    requires
        old(cache).wf(),
        old(cache).dir_safe(),
        request_safe(kind, request, *old(cache)),
    ensures
        final(cache).wf(),
        final(cache).dir_safe(),
        final(cache).total() == old(cache).total(),
        performed(kind, request, *old(cache), *final(cache), o),
        o matches Some(out) ==> (out matches Ok(fp) ==> fp.0.delay_nano <= MAX_FRAME_DELAY_NANOS),
{
    let ghost c0 = *cache;
    let ghost req = request;
    match request {
        LoadRequest::Nothing => None,
        LoadRequest::FilePath(t) => {
            let FileTarget { path, location, listing } = t;
            match location {
                Ok((folder, name)) => {
                    let n: Option<&str> = match &name {
                        Some(x) => Some(x.as_str()),
                        None => None,
                    };
                    assert(name_view(n) == opt_name(name));
                    let r = cache.load_specific(folder.as_str(), n, listing, None);
                    let ghost rg = r;
                    let o = match r {
                        Ok(f) => Ok((f, path)),
                        Err(e) => Err((e, path)),
                    };
                    assert(specific_outcome(
                        c0.full(),
                        cache.full(),
                        c0.total(),
                        folder@,
                        opt_name(name),
                        t.listing,
                        None,
                        rg,
                    ));
                    assert(performed(kind, req, c0, *cache, Some(o)));
                    Some(o)
                },
                Err(msg) => {
                    let o = Err((CacheError::Directory(DirError::Other(msg)), path));
                    assert(performed(kind, req, c0, *cache, Some(o)));
                    Some(o)
                },
            }
        },
        LoadRequest::LoadAtIndex(i) => match kind {
            PlaybackKind::Folder => {
                let r = cache.load_at_index(i, None);
                let ghost rg = r;
                let o = with_current_path(r, cache);
                assert(index_outcome(c0.full(), cache.full(), c0.total(), i, None, rg));
                assert(performed(kind, req, c0, *cache, Some(o)));
                Some(o)
            },
            PlaybackKind::Anim => {
                let ci = cache.current_file_index();
                let ghost d = *cache;
                assert(filter_checked(c0.full().dir, d.dir()));
                match ci {
                    Some(c) => {
                        let r = cache.load_at_index(c, Some(i as isize));
                        let ghost rg = r;
                        let o = with_current_path(r, cache);
                        assert(index_outcome(with_dir(c0.full(), d.dir()), cache.full(), c0.total(), c, Some(i as isize), rg));
                        assert(performed(kind, req, c0, *cache, Some(o)));
                        Some(o)
                    },
                    None => {
                        let path = match cache.current_file_path() {
                            Some(p) => p,
                            None => String::new(),
                        };
                        assert(cache.full() == with_dir(c0.full(), d.dir()));
                        let o = Err((CacheError::WaitingOnDirFilter, path));
                        assert(performed(kind, req, c0, *cache, Some(o)));
                        Some(o)
                    },
                }
            },
        },
        _ => {
            let (fj, frj): (i32, isize) = match request {
                LoadRequest::LoadNext => match kind {
                    PlaybackKind::Folder => (1, 0),
                    PlaybackKind::Anim => (0, 1),
                },
                LoadRequest::LoadPrevious => match kind {
                    PlaybackKind::Folder => (-1, 0),
                    PlaybackKind::Anim => (0, -1),
                },
                LoadRequest::Jump(n) => match kind {
                    PlaybackKind::Folder => (n, 0),
                    PlaybackKind::Anim => (0, n as isize),
                },
                _ => (0, 0),
            };
            assert((fj, frj) == jump_args(kind, req));
            let r = cache.load_jump(fj, frj);
            let ghost rg = r;
            let o = with_current_path(r, cache);
            assert(jump_outcome(c0.full(), cache.full(), c0.total(), fj, frj, rg));
            assert(performed(kind, req, c0, *cache, Some(o)));
            Some(o)
        },
    }
}

impl<F> ImgSequencePlayer<F> {
    /// Takes in what a load answered: see `settled`. Answers whether to look again
    /// soon.
    fn settle(&mut self, outcome: LoadOutcome<F>) -> (retry: bool)
        requires
            old(self).wf(),
            outcome matches Ok(fp) ==> fp.0.delay_nano <= MAX_FRAME_DELAY_NANOS,
        ensures
            final(self).wf(),
            settled(old(self).shown(), old(self).path(), old(self).request(), *final(self), outcome) == (
                true,
                retry,
            ),
            final(self).kind() == old(self).kind(),
            final(self).state() == old(self).state(),
            final(self).remaining() == old(self).remaining(),
            final(self).last_change() == old(self).last_change(),
            final(self).drift() == old(self).drift(),
    {
        match outcome {
            Ok((frame, path)) => {
                self.image_texture = Some(frame);
                self.file_path = LoadedImgPath::Loaded(path);
                false
            },
            Err((e, path)) => match e {
                CacheError::WaitingOnLoader | CacheError::WaitingOnDirFilter => {
                    self.load_request = LoadRequest::Jump(0);
                    true
                },
                CacheError::NoCurrentFile => {
                    self.image_texture = None;
                    self.file_path = LoadedImgPath::NotYetLoaded;
                    false
                },
                _ => {
                    self.image_texture = None;
                    self.file_path = LoadedImgPath::ErrLoading(path);
                    false
                },
            },
        }
    }
}

impl<F: Clone> ImgSequencePlayer<F> {
    /// Decides, for a playing player with no request, whether a frame change is due at
    /// the instant `now`, and when to look again:
    /// - due: the clock restarts at `now`, keeping how far it was behind; the next step
    ///   is one image or frame ahead, or, for a random presentation, the image index
    ///   taken after as many as are due from the end of the order (refilled when it runs
    ///   out); look again after half the time left, at least a millisecond;
    /// - not due: the waiting results are handled; then, close to the next frame, poll;
    ///   otherwise prefetch (the next image of a random presentation, or the neighbours)
    ///   and look again after half the time left.
    fn advance_clock(&mut self, now: u64, cache: &mut ImageCache<F>) -> (r: (NextUpdate, LoadRequest))
        requires
            old(self).wf(),
            !(old(self).state() is Paused),
            old(self).last_change() <= now <= MAX_TIME,
            old(cache).wf(),
            old(cache).dir_safe(),
        ensures
            final(self).wf(),
            final(cache).wf(),
            final(cache).dir_safe(),
            final(cache).total() == old(cache).total(),
            final(self).kind() == old(self).kind(),
            final(self).state() == old(self).state(),
            final(self).request() == old(self).request(),
            final(self).shown() == old(self).shown(),
            final(self).path() == old(self).path(),
            clock_cache(*old(self), now, *old(cache), *final(cache)),
            ({
                let e = elapsed_at(*old(self), now);
                let d = frame_delta(old(self).state(), old(self).kind(), old(self).shown_delay());
                let ntn = d - e;
                let wait = NextUpdate::WaitUntil((now + wait_millis(ntn) * 1_000_000) as u64);
                let due = frames_due(e, d);
                let n = old(self).remaining().len();
                if due > 0 {
                    &&& r.0 == wait
                    &&& final(self).last_change() == now
                    &&& final(self).drift() == -ntn
                    &&& (old(self).state() is Forward || old(self).state() is Present ==> r.1
                        == LoadRequest::Jump(1) && final(self).remaining() == old(self).remaining()
                        && final(cache).full() == old(cache).full())
                    &&& (old(self).state() is RandomPresent ==> (r.1 is Nothing || r.1 is LoadAtIndex)
                        && (n >= due ==> r.1 == LoadRequest::LoadAtIndex(old(self).remaining()[n - due])
                        && final(self).remaining() == old(self).remaining().take(n - due)
                        && final(cache).full() == old(cache).full()))
                } else {
                    &&& r.1 is Nothing
                    &&& r.0 == (if near_next_frame(e, d) {
                        NextUpdate::Soonest
                    } else {
                        wait
                    })
                    &&& final(self).last_change() == old(self).last_change()
                    &&& final(self).drift() == old(self).drift()
                    &&& final(self).remaining() == old(self).remaining()
                }
            }),
    {
        let since: u64 = if now >= self.last_frame_change_time {
            now - self.last_frame_change_time
        } else {
            0
        };
        let elapsed: i64 = since as i64 + self.frametime_drift_offset;
        let delta: i64 = self.delay_nanos() as i64;
        let nanos_til_next: i64 = delta - elapsed;
        let wait_ms: u64 = if nanos_til_next >= 2_000_000 {
            ((nanos_til_next / 1_000_000) / 2) as u64
        } else {
            1
        };
        assert(wait_ms * 1_000_000 <= 0x2000_0000_0000_0000) by (nonlinear_arith)
            requires
                wait_ms <= 0x4000_0000_0000_0000int / 2_000_000int,
        ;
        let mut next_update = NextUpdate::WaitUntil(now + wait_ms * 1_000_000);
        let frame_step: i64 = if delta > 0 {
            elapsed / delta
        } else {
            0
        };
        proof {
            assert(elapsed == elapsed_at(*old(self), now));
            assert(delta == frame_delta(old(self).state(), old(self).kind(), old(self).shown_delay()));
            assert(frame_step == frames_due(elapsed as int, delta as int));
            assert(wait_ms == wait_millis(nanos_til_next as int));
            if frame_step > 0 {
                assert(elapsed >= delta) by (nonlinear_arith)
                    requires
                        delta > 0,
                        elapsed / delta >= 1,
                        elapsed >= 0,
                ;
            }
        }
        if frame_step > 0 {
            let request = match self.playback_state {
                PlaybackState::RandomPresent => {
                    let ghost r0 = self.present_remaining@;
                    let ghost n0 = r0.len();
                    let ghost c0 = cache.full();
                    let mut refilled = false;
                    let mut target: Option<usize> = None;
                    let mut k: i64 = 0;
                    while k < frame_step
                        invariant
                            0 <= k <= frame_step,
                            self.wf(),
                            cache.wf(),
                            cache.dir_safe(),
                            cache.total() == old(cache).total(),
                            self.kind() == old(self).kind(),
                            self.state() == old(self).state(),
                            self.request() == old(self).request(),
                            self.shown() == old(self).shown(),
                            self.path() == old(self).path(),
                            self.last_change() == old(self).last_change(),
                            self.drift() == old(self).drift(),
                            r0 == old(self).remaining(),
                            n0 == r0.len(),
                            c0 == old(cache).full(),
                            cache.state() == old(cache).state(),
                            cache.frame_index() == old(cache).frame_index(),
                            cache.dir() == old(cache).dir() || filter_checked(old(cache).dir(), cache.dir()),
                            !refilled ==> k <= n0 && self.remaining() == r0.take(n0 - k) && cache.full() == c0
                                && (k > 0 ==> target == Some(r0[n0 - k])) && (k == 0 ==> target is None),
                            refilled ==> n0 < frame_step,
                            target matches Some(_) || target is None,
                        decreases frame_step - k,
                    {
                        let ghost before = self.present_remaining@;
                        target = self.present_remaining.pop();
                        if target.is_none() {
                            proof {
                                if !refilled {
                                    assert(before.len() == 0);
                                    assert(n0 - k == 0);
                                }
                            }
                            refilled = true;
                            let ghost before_fill = cache.dir();
                            self.fill_present_remaining(cache);
                            proof {
                                if before_fill != old(cache).dir() {
                                    lemma_filter_checked_twice(old(cache).dir(), before_fill, cache.dir());
                                }
                            }
                            target = self.present_remaining.pop();
                        } else {
                            proof {
                                if !refilled {
                                    assert(r0.take(n0 - k).last() == r0[n0 - k - 1]);
                                    assert(r0.take(n0 - k).drop_last() =~= r0.take(n0 - k - 1));
                                }
                            }
                        }
                        k = k + 1;
                    }
                    proof {
                        if n0 >= frame_step {
                            assert(!refilled);
                        }
                    }
                    match target {
                        Some(index) => LoadRequest::LoadAtIndex(index),
                        None => LoadRequest::Nothing,
                    }
                },
                _ => LoadRequest::Jump(1),
            };
            self.last_frame_change_time = now;
            self.frametime_drift_offset = -nanos_til_next;
            (next_update, request)
        } else {
            cache.process_prefetched();
            let ghost c0 = *cache;
            assert(results_handled(*old(cache), c0));
            if elapsed as i128 * 5 > delta as i128 * 4 {
                next_update = NextUpdate::Soonest;
            } else {
                match self.playback_state {
                    PlaybackState::RandomPresent => {
                        let n = self.present_remaining.len();
                        if n > 0 {
                            let last = self.present_remaining[n - 1];
                            let _ = cache.prefetch_at_index(last);
                        }
                    },
                    _ => cache.prefetch_neighbors(),
                }
            }
            (next_update, LoadRequest::Nothing)
        }
    }
}

/// A step through a folder known to hold no image is skipped.
pub open spec fn skipped<F>(req: LoadRequest, c: ImageCache<F>) -> bool {
    !(req is Nothing) && !(req is FilePath) && c.is_known_empty()
}

/// The cache after `req` is carried out from `c1` (see `performed`), or left as it is
/// when the step is skipped.
pub open spec fn loaded_or_skipped<F: Clone>(
    kind: PlaybackKind,
    req: LoadRequest,
    c1: ImageCache<F>,
    c2: ImageCache<F>,
    o: Option<LoadOutcome<F>>,
) -> bool {
    if skipped(req, c1) {
        o is None && c2.full() == c1.full()
    } else {
        performed(kind, req, c1, c2, o)
    }
}

/// The player has nothing to do: nothing shown, nothing asked, and paused.
pub open spec fn idle<F>(p: ImgSequencePlayer<F>) -> bool {
    !(p.path() is Loaded) && p.request() is Nothing && p.state() is Paused
}

/// When to look again before the load is known: a paused player retries a pending
/// `Jump(0)` soon and otherwise waits for an event; a playing player with a request
/// retries soon; one without follows its clock (see `advance_clock`).
pub open spec fn base_wish<F>(p: ImgSequencePlayer<F>, now: u64) -> NextUpdate {
    let soon = NextUpdate::WaitUntil((now + RETRY_NANOS) as u64);
    if p.state() is Paused {
        if p.request() == LoadRequest::Jump(0) {
            soon
        } else {
            NextUpdate::Latest
        }
    } else if !(p.request() is Nothing) {
        soon
    } else {
        let e = elapsed_at(p, now);
        let d = frame_delta(p.state(), p.kind(), p.shown_delay());
        let wait = NextUpdate::WaitUntil((now + wait_millis(d - e) * 1_000_000) as u64);
        if frames_due(e, d) <= 0 && near_next_frame(e, d) {
            NextUpdate::Soonest
        } else {
            wait
        }
    }
}

/// The request carried out at `now` may be `req`: the effective one, or, in a random
/// presentation, the index taken from its order (the order may have been refilled).
pub open spec fn acted_on<F>(p: ImgSequencePlayer<F>, now: u64, req: LoadRequest) -> bool {
    req == effective_request(p, now) || (p.state() is RandomPresent && p.request() is Nothing && (
    req is Nothing || req is LoadAtIndex))
}

impl<F: Clone> ImgSequencePlayer<F> {
    /// One update at the instant `now`: decides what to load (the pending request, or
    /// what the clock calls for), loads it from the cache, takes in the answer, and tells
    /// when to update again. An idle player does nothing. A step through a folder known
    /// to hold no image is skipped, answering `Latest`.
    pub fn update_image(&mut self, now: u64, cache: &mut ImageCache<F>) -> (r: NextUpdate)
        requires
            update_safe(*old(self), now, *old(cache)),
        ensures
            final(self).wf(),
            final(cache).wf(),
            final(cache).dir_safe(),
            final(cache).total() == old(cache).total(),
            final(self).kind() == old(self).kind(),
            final(self).state() == old(self).state(),
            idle(*old(self)) ==> r == NextUpdate::Latest && *final(self) == *old(self) && *final(cache)
                == *old(cache),
            !idle(*old(self)) ==> exists|c1: ImageCache<F>, req: LoadRequest, o: Option<LoadOutcome<F>>|
                #[trigger] acted_on(*old(self), now, req) && #[trigger] loaded_or_skipped(
                    old(self).kind(),
                    req,
                    c1,
                    *final(cache),
                    o,
                ) && cache_before_load(*old(self), now, *old(cache), c1) && match o {
                    None => final(self).shown() == old(self).shown() && final(self).path() == old(
                        self,
                    ).path() && final(self).request() is Nothing && r == (if skipped(req, c1) {
                        NextUpdate::Latest
                    } else {
                        base_wish(*old(self), now)
                    }),
                    Some(out) => {
                        let st = settled(
                            old(self).shown(),
                            old(self).path(),
                            LoadRequest::Nothing,
                            *final(self),
                            out,
                        );
                        st.0 && r == (if st.1 {
                            NextUpdate::WaitUntil((now + RETRY_NANOS) as u64)
                        } else {
                            base_wish(*old(self), now)
                        })
                    },
                },
    {
        let is_paused = match self.playback_state {
            PlaybackState::Paused => true,
            _ => false,
        };
        let no_request = match self.load_request {
            LoadRequest::Nothing => true,
            _ => false,
        };
        if !self.file_path.is_loaded() && no_request && is_paused {
            return NextUpdate::Latest;
        }
        let ghost p0 = *self;
        let few_millisecs_from_now = now + RETRY_NANOS;
        let mut load_request = LoadRequest::Nothing;
        std::mem::swap(&mut self.load_request, &mut load_request);
        let mut next_update: NextUpdate;
        if is_paused {
            cache.process_prefetched();
            let ghost c0 = *cache;
            assert(results_handled(*old(cache), c0));
            match load_request {
                LoadRequest::Jump(0) => {
                    next_update = NextUpdate::WaitUntil(few_millisecs_from_now);
                },
                _ => {
                    cache.prefetch_neighbors();
                    next_update = NextUpdate::Latest;
                },
            }
            assert(cache_before_load(p0, now, *old(cache), *cache));
        } else if no_request {
            let (n, req) = self.advance_clock(now, cache);
            next_update = n;
            load_request = req;
        } else {
            next_update = NextUpdate::WaitUntil(few_millisecs_from_now);
        }
        let steps = match load_request {
            LoadRequest::Nothing | LoadRequest::FilePath(..) => false,
            _ => true,
        };
        if steps && cache.known_empty() {
            proof {
                let c1 = *cache;
                assert(skipped(load_request, c1));
                assert(acted_on(p0, now, load_request));
                assert(loaded_or_skipped(p0.kind(), load_request, c1, *cache, None));
            }
            return NextUpdate::Latest;
        }
        let ghost c1 = *cache;
        let ghost req = load_request;
        let kind = self.kind;
        let outcome = perform_load(kind, load_request, cache);
        let ghost og = outcome;
        assert(!skipped(req, c1));
        assert(loaded_or_skipped(p0.kind(), req, c1, *cache, og));
        assert(acted_on(p0, now, req));
        assert(next_update == base_wish(p0, now));
        match outcome {
            None => next_update,
            Some(out) => {
                let retry = self.settle(out);
                if retry {
                    NextUpdate::WaitUntil(few_millisecs_from_now)
                } else {
                    next_update
                }
            },
        }
    }
}

impl<F> ImgSequencePlayer<F> {
    /// Whether a frame change is due at the instant `now`.
    fn is_frame_due(&self, now: u64) -> (r: bool)
        requires
            self.wf(),
            self.last_change() <= now <= MAX_TIME,
        ensures
            r == frame_due(*self, now),
    {
        let since: u64 = now - self.last_frame_change_time;
        let elapsed: i64 = since as i64 + self.frametime_drift_offset;
        let delta: i64 = self.delay_nanos() as i64;
        if delta > 0 {
            elapsed / delta > 0
        } else {
            false
        }
    }

    /// Whether carrying out `request` would fail: see `request_safe`.
    fn request_would_panic(kind: PlaybackKind, request: &LoadRequest, cache: &ImageCache<F>) -> (r: bool)
        requires
            cache.wf(),
        ensures
            r == !request_safe(kind, *request, *cache),
    {
        match request {
            LoadRequest::FilePath(t) => match &t.location {
                Ok((folder, name)) => {
                    let n: Option<&str> = match name {
                        Some(x) => Some(x.as_str()),
                        None => None,
                    };
                    assert(name_view(n) == opt_name(*name));
                    !cache.target_is_safe(folder.as_str(), n, &t.listing)
                },
                Err(_) => false,
            },
            LoadRequest::LoadNext | LoadRequest::LoadPrevious | LoadRequest::Jump(_) => {
                let images: i64 = match request {
                    LoadRequest::LoadNext => match kind {
                        PlaybackKind::Folder => 1,
                        PlaybackKind::Anim => 0,
                    },
                    LoadRequest::LoadPrevious => match kind {
                        PlaybackKind::Folder => -1,
                        PlaybackKind::Anim => 0,
                    },
                    LoadRequest::Jump(n) => match kind {
                        PlaybackKind::Folder => *n as i64,
                        PlaybackKind::Anim => 0,
                    },
                    _ => 0,
                };
                assert(images as int == request_steps(kind, *request).0);
                (images == 1 || images == -1) && !cache.has_current_file()
            },
            _ => false,
        }
    }

    /// Whether `update_image` at the instant `now` would fail for want of what its load
    /// needs (see `update_safe`), given a sound cache and a clock that moves forward.
    pub fn update_would_panic(&self, now: u64, cache: &ImageCache<F>) -> (r: bool)
        requires
            self.wf(),
            self.last_change() <= now <= MAX_TIME,
            cache.wf(),
            cache.dir_safe(),
        ensures
            r == !update_safe(*self, now, *cache),
    {
        let empty = cache.known_empty();
        let is_file = match &self.load_request {
            LoadRequest::FilePath(_) => true,
            _ => false,
        };
        if empty && !is_file {
            return false;
        }
        match &self.load_request {
            LoadRequest::Nothing => {
                let playing = match self.playback_state {
                    PlaybackState::Forward | PlaybackState::Present => true,
                    _ => false,
                };
                if playing && self.is_frame_due(now) {
                    Self::request_would_panic(self.kind, &LoadRequest::Jump(1), cache)
                } else {
                    false
                }
            },
            _ => Self::request_would_panic(self.kind, &self.load_request, cache),
        }
    }
}

/// The memory budget of the image cache, in bytes: an eighth of the system memory
/// (reported in KiB), or 500 MB when the system does not report it.
pub fn cache_capacity(total_memory_kib: Option<u64>) -> (r: i64)
    requires
        total_memory_kib matches Some(t) ==> (t / 8) * 1024 <= u64::MAX,
    ensures
        r == (match total_memory_kib {
            Some(t) => ((t / 8) * 1024) as i64,
            None => 500_000_000,
        }),
{
    match total_memory_kib {
        Some(t) => ((t / 8) * 1024) as i64,
        None => 500_000_000,
    }
}

/// The number of loader threads: the number of CPUs between 2 and 4, or 4 when the
/// system does not report it.
pub fn loader_thread_count(cpu_count: Option<u32>) -> (r: u32)
    ensures
        r == (match cpu_count {
            Some(n) => if n < 2 {
                2
            } else if n > 4 {
                4
            } else {
                n
            },
            None => 4,
        }),
{
    match cpu_count {
        Some(n) => if n < 2 {
            2
        } else if n > 4 {
            4
        } else {
            n
        },
        None => 4,
    }
}

/// The image cache with a player for the folder and one for the frames of the shown
/// image.
#[verifier::reject_recursive_types(F)]
pub struct PlaybackManager<F> {
    image_cache: ImageCache<F>,
    folder_player: ImgSequencePlayer<F>,
    image_player: ImgSequencePlayer<F>,
}

impl<F> PlaybackManager<F> {
    pub closed spec fn cache(&self) -> ImageCache<F> {
        self.image_cache
    }

    pub closed spec fn folder(&self) -> ImgSequencePlayer<F> {
        self.folder_player
    }

    pub closed spec fn frames(&self) -> ImgSequencePlayer<F> {
        self.image_player
    }

    /// The parts are sound, the folder player steps through the folder and the image
    /// player through frames, and the image player is never asked for a file.
    pub open spec fn wf(&self) -> bool {
        &&& self.cache().wf()
        &&& self.folder().wf()
        &&& self.frames().wf()
        &&& self.folder().kind() is Folder
        &&& self.frames().kind() is Anim
        &&& !(self.frames().request() is FilePath)
    }

    /// A manager with an empty cache of `capacity` bytes, started at the instant `now`.
    pub fn new(capacity: i64, now: u64) -> (r: Self)
        requires
            now <= MAX_TIME,
        ensures
            r.wf(),
            r.cache().dir_safe(),
            r.cache().total() == capacity,
            r.cache().remaining() == capacity,
            r.folder().state() is Paused,
            r.frames().state() is Paused,
            r.folder().request() is Nothing,
            r.frames().request() is Nothing,
    {
        PlaybackManager {
            image_cache: ImageCache::new(capacity),
            folder_player: ImgSequencePlayer::new(PlaybackKind::Folder, now),
            image_player: ImgSequencePlayer::new(PlaybackKind::Anim, now),
        }
    }

    /// How the folder advances.
    pub fn playback_state(&self) -> (r: PlaybackState)
        ensures
            r == self.folder().state(),
    {
        self.folder_player.playback_state()
    }

    /// Plays the folder forward from the instant `now`.
    pub fn start_playback_forward(&mut self, now: u64)
        requires
            old(self).wf(),
            now <= MAX_TIME,
        ensures
            final(self).wf(),
            final(self).folder().state() is Forward,
            final(self).folder().last_change() == now,
            final(self).folder().request() == old(self).folder().request(),
            final(self).cache() == old(self).cache(),
            final(self).frames() == old(self).frames(),
    {
        self.folder_player.start_playback_forward(now);
    }

    /// Stops playing the folder.
    pub fn pause_playback(&mut self)
        requires
            old(self).wf(),
        ensures
            final(self).wf(),
            final(self).folder().state() is Paused,
            final(self).folder().request() == old(self).folder().request(),
            final(self).cache() == old(self).cache(),
            final(self).frames() == old(self).frames(),
    {
        self.folder_player.pause_playback();
    }

    /// Presents the folder from the instant `now`.
    pub fn start_presentation(&mut self, now: u64)
        requires
            old(self).wf(),
            now <= MAX_TIME,
        ensures
            final(self).wf(),
            final(self).folder().state() is Present,
            final(self).folder().last_change() == now,
            final(self).folder().request() == old(self).folder().request(),
            final(self).cache() == old(self).cache(),
            final(self).frames() == old(self).frames(),
    {
        self.folder_player.start_presentation(now);
    }

    /// Asks the folder player for `request`, and the image player to show the first
    /// frame of what it loads.
    pub fn request_load(&mut self, request: LoadRequest)
        requires
            old(self).wf(),
        ensures
            final(self).wf(),
            final(self).folder().request() == request,
            final(self).frames().request() == LoadRequest::Jump(0),
            final(self).cache() == old(self).cache(),
            final(self).folder().state() == old(self).folder().state(),
            final(self).frames().state() == old(self).frames().state(),
    {
        self.folder_player.request_load(request);
        self.image_player.request_load(LoadRequest::Jump(0));
    }

    /// The file of the shown image.
    pub fn shown_file_path(&self) -> (r: &LoadedImgPath)
        ensures
            *r == self.folder().path(),
    {
        self.folder_player.shown_file_path()
    }

    /// The cache, to hand it loader results and take its requests.
    pub fn cache_mut(&mut self) -> (r: &mut ImageCache<F>)
        ensures
            *r == old(self).cache(),
            final(self).cache() == *final(r),
            final(self).folder() == old(self).folder(),
            final(self).frames() == old(self).frames(),
    {
        &mut self.image_cache
    }

    /// The cache.
    pub fn cache_ref(&self) -> (r: &ImageCache<F>)
        ensures
            *r == self.cache(),
    {
        &self.image_cache
    }

    /// The folder player.
    pub fn folder_player(&self) -> (r: &ImgSequencePlayer<F>)
        ensures
            *r == self.folder(),
    {
        &self.folder_player
    }
}

/// The request that loads the current file of the cache again: its path, its folder
/// and its name, with no listing (the folder is open already); with no current file, a
/// target with an empty path that cannot be located.
pub open spec fn reload_target<F>(t: FileTarget, c: ImageCache<F>) -> bool {
    &&& t.listing is Err
    &&& match curr_item(c.dir()) {
        Some(d) => {
            &&& t.path@ == d.path@
            &&& t.location matches Ok(loc)
            &&& loc.0@ == c.dir().path_view()
            &&& loc.1 is Some
            &&& loc.1->0@ == curr_name(c.dir())
        },
        None => t.path@ == Seq::<char>::empty() && t.location is Err,
    }
}

impl<F: Clone> PlaybackManager<F> {
    /// Starts a random presentation of the folder at the instant `now`. `false` while
    /// the folder is being filtered.
    pub fn start_random_presentation(&mut self, now: u64) -> (r: bool)
        requires
            old(self).wf(),
            old(self).cache().dir_safe(),
            now <= MAX_TIME,
        ensures
            final(self).wf(),
            final(self).cache().dir_safe(),
            final(self).folder().state() is RandomPresent,
            r == filter_done(old(self).cache().dir()),
            r ==> final(self).folder().remaining().to_multiset() == Seq::new(
                final(self).cache().dir().image_files().len(),
                |i: int| i as usize,
            ).to_multiset(),
            !r ==> final(self).folder().remaining() == Seq::<usize>::empty(),
            final(self).frames() == old(self).frames(),
            final(self).folder().request() == old(self).folder().request(),
            final(self).folder().last_change() == now,
    {
        self.folder_player.start_random_presentation(now, &mut self.image_cache)
    }

    /// The image index of the current file, `None` while the folder is being filtered.
    pub fn current_file_index(&mut self) -> (r: Option<usize>)
        requires
            old(self).wf(),
            old(self).cache().dir_safe(),
        ensures
            final(self).wf(),
            final(self).cache().dir_safe(),
            r == checked_index(old(self).cache().dir(), final(self).cache().dir()),
            final(self).folder() == old(self).folder(),
            final(self).frames() == old(self).frames(),
    {
        self.image_cache.current_file_index()
    }

    /// The number of images in the folder, `None` while it is being filtered.
    pub fn current_dir_len(&mut self) -> (r: Option<usize>)
        requires
            old(self).wf(),
            old(self).cache().dir_safe(),
        ensures
            final(self).wf(),
            final(self).cache().dir_safe(),
            r == (if filter_done(old(self).cache().dir()) {
                Some(final(self).cache().dir().image_files().len() as usize)
            } else {
                None
            }),
            final(self).folder() == old(self).folder(),
            final(self).frames() == old(self).frames(),
    {
        self.image_cache.current_dir_len()
    }

    /// A copy of the shown frame of the shown image.
    pub fn image_texture(&self) -> (r: Option<AnimationFrameTexture<F>>)
        ensures
            match self.frames().shown() {
                Some(f) => r matches Some(g) && crate::image_cache::cache::same_frame(f, g),
                None => r is None,
            },
    {
        self.image_player.image_texture()
    }

    /// Reads the folder again from `listing` while no load is pending: the current file
    /// (when there is one) is then loaded again, from its position in the folder, or,
    /// with no current file left, the empty path is asked for, which hides the image.
    pub fn update_directory(&mut self, listing: Result<Vec<ListedEntry>, String>) -> (r: Result<
        (),
        CacheError,
    >)
        requires
            old(self).wf(),
            crate::image_cache::directory::ids_fit(old(self).cache().dir(), listing),
        ensures
            final(self).wf(),
            !(old(self).folder().request() is Nothing) || curr_item(old(self).cache().dir()) is None
                ==> final(self).cache() == old(self).cache() && final(self).folder() == old(self).folder()
                && r is Ok,
            old(self).folder().request() is Nothing && curr_item(old(self).cache().dir()) is Some
                ==> final(self).cache().dir().path_view() == old(self).cache().dir().path_view() && exists|
                rd: Result<(), DirError>,
            |
                #[trigger] directory_updated(old(self).cache().dir(), final(self).cache().dir(), listing, rd)
                    && match rd {
                    Ok(()) => r is Ok && final(self).cache().state() == CacheState {
                        textures: marked_for_update(old(self).cache().textures()),
                        ..old(self).cache().state()
                    } && (final(self).folder().request() matches LoadRequest::FilePath(t)
                        && reload_target(t, final(self).cache())) && final(self).frames().request()
                        == LoadRequest::Jump(0) && final(self).folder().state() == old(self).folder().state(),
                    Err(e) => r == Err::<(), CacheError>(CacheError::Directory(e)) && final(self).cache().state()
                        == old(self).cache().state() && final(self).folder() == old(self).folder(),
                },
    {
        match self.folder_player.load_request {
            LoadRequest::Nothing => {},
            _ => {
                return Ok(());
            },
        }
        if self.image_cache.current_file_path().is_none() {
            return Ok(());
        }
        let r = self.image_cache.update_directory(listing);
        match r {
            Err(e) => {
                return Err(e);
            },
            Ok(()) => {},
        }
        let target = match self.image_cache.current_file_path() {
            Some(path) => {
                let folder = self.image_cache.dir_path().to_owned();
                let name = self.image_cache.current_filename();
                FileTarget {
                    path,
                    location: Ok((folder, Some(name))),
                    listing: Err(String::new()),
                }
            },
            None => FileTarget {
                path: String::new(),
                location: Err("Could not get file name from path".to_owned()),
                listing: Err(String::new()),
            },
        };
        self.request_load(LoadRequest::FilePath(target));
        Ok(())
    }
}

/// A shown-file record as values: which case it is, and its path.
pub open spec fn shown_path_view(p: LoadedImgPath) -> (int, Seq<char>) {
    match p {
        LoadedImgPath::NotYetLoaded => (0, Seq::empty()),
        LoadedImgPath::ErrLoading(s) => (1, s@),
        LoadedImgPath::Loaded(s) => (2, s@),
    }
}

/// A copy of a shown-file record.
fn copy_shown_path(p: &LoadedImgPath) -> (r: LoadedImgPath)
    ensures
        r == *p,
{
    match p {
        LoadedImgPath::NotYetLoaded => LoadedImgPath::NotYetLoaded,
        LoadedImgPath::ErrLoading(s) => LoadedImgPath::ErrLoading(s.clone()),
        LoadedImgPath::Loaded(s) => LoadedImgPath::Loaded(s.clone()),
    }
}

/// Whether two shown-file records name the same case and path.
fn same_shown_path(a: &LoadedImgPath, b: &LoadedImgPath) -> (r: bool)
    ensures
        r == (shown_path_view(*a) == shown_path_view(*b)),
{
    match a {
        LoadedImgPath::NotYetLoaded => match b {
            LoadedImgPath::NotYetLoaded => true,
            _ => false,
        },
        LoadedImgPath::ErrLoading(x) => match b {
            LoadedImgPath::ErrLoading(y) => {
                let eq = x.eq(y);
                eq
            },
            _ => false,
        },
        LoadedImgPath::Loaded(x) => match b {
            LoadedImgPath::Loaded(y) => {
                let eq = x.eq(y);
                eq
            },
            _ => false,
        },
    }
}

/// One update of a player as `ImgSequencePlayer::update_image` states it: the player
/// `p` with the cache `c` at the instant `now` becomes `p2` with the cache `c2` and
/// answers `r`.
pub open spec fn updated<F: Clone>(
    p: ImgSequencePlayer<F>,
    now: u64,
    c: ImageCache<F>,
    p2: ImgSequencePlayer<F>,
    c2: ImageCache<F>,
    r: NextUpdate,
) -> bool {
    &&& p2.wf()
    &&& c2.wf()
    &&& c2.dir_safe()
    &&& c2.total() == c.total()
    &&& p2.kind() == p.kind()
    &&& p2.state() == p.state()
    &&& idle(p) ==> r == NextUpdate::Latest && p2 == p && c2 == c
    &&& !idle(p) ==> exists|c1: ImageCache<F>, req: LoadRequest, o: Option<LoadOutcome<F>>|
        #[trigger] acted_on(p, now, req) && #[trigger] loaded_or_skipped(p.kind(), req, c1, c2, o)
            && cache_before_load(p, now, c, c1) && match o {
            None => p2.shown() == p.shown() && p2.path() == p.path() && p2.request() is Nothing && r
                == (if skipped(req, c1) {
                NextUpdate::Latest
            } else {
                base_wish(p, now)
            }),
            Some(out) => {
                let st = settled(p.shown(), p.path(), LoadRequest::Nothing, p2, out);
                st.0 && r == (if st.1 {
                    NextUpdate::WaitUntil((now + RETRY_NANOS) as u64)
                } else {
                    base_wish(p, now)
                })
            },
        }
}

/// The folder player `b` shows another file than `a` did: an image appeared or went,
/// or the recorded path differs.
pub open spec fn shown_file_changed<F>(a: ImgSequencePlayer<F>, b: ImgSequencePlayer<F>) -> bool {
    (a.shown() is Some) != (b.shown() is Some) || shown_path_view(a.path()) != shown_path_view(b.path())
}

/// The current file of the cache is a still image, loaded completely.
pub open spec fn still_image_loaded<F>(c: ImageCache<F>) -> bool {
    match curr_item(c.dir()) {
        Some(d) => has_key(c.textures(), d.request_id) && entry(c.textures(), d.request_id).fully_loaded
            && entry(c.textures(), d.request_id).frames.len() == 1,
        None => false,
    }
}

/// The image player `fr0` made ready for its update: when the shown file `changed`, it
/// plays forward from the instant `now` and asks for the first frame; when the file is
/// a `still` image, it is paused.
pub open spec fn prepared<F>(
    fr0: ImgSequencePlayer<F>,
    fr: ImgSequencePlayer<F>,
    changed: bool,
    still: bool,
    now: u64,
) -> bool {
    &&& fr.kind() == fr0.kind()
    &&& fr.remaining() == fr0.remaining()
    &&& fr.shown() == fr0.shown()
    &&& fr.path() == fr0.path()
    &&& fr.request() == (if changed {
        LoadRequest::Jump(0)
    } else {
        fr0.request()
    })
    &&& fr.last_change() == (if changed {
        now
    } else {
        fr0.last_change()
    })
    &&& fr.drift() == (if changed {
        0
    } else {
        fr0.drift()
    })
    &&& fr.state() == (if still {
        PlaybackState::Paused
    } else if changed {
        PlaybackState::Forward
    } else {
        fr0.state()
    })
}

impl<F: Clone> PlaybackManager<F> {
    /// One update of both players at the instant `now`: the folder player first; when
    /// the shown file changed, the image player starts over from the first frame; a
    /// still image that is loaded completely pauses it; then the image player. Answers
    /// the earlier of the two wishes for the next update.
    pub fn update_image(&mut self, now: u64) -> (r: NextUpdate)
        requires
            old(self).wf(),
            update_safe(old(self).folder(), now, old(self).cache()),
            old(self).frames().last_change() <= now,
        ensures
            final(self).wf(),
            final(self).cache().dir_safe(),
            final(self).folder().state() == old(self).folder().state(),
            exists|c1: ImageCache<F>, n1: NextUpdate, fr: ImgSequencePlayer<F>, n2: NextUpdate|
                #[trigger] updated(old(self).folder(), now, old(self).cache(), final(self).folder(), c1, n1)
                    && prepared(
                    old(self).frames(),
                    fr,
                    shown_file_changed(old(self).folder(), final(self).folder()),
                    still_image_loaded(c1),
                    now,
                ) && #[trigger] updated(fr, now, c1, final(self).frames(), final(self).cache(), n2)
                    && r == crate::gui::earliest(n1, n2),
    {
        let ghost f0 = self.folder_player;
        let ghost fr0 = self.image_player;
        let ghost c0 = self.image_cache;
        let prev_shown = self.folder_player.image_texture.is_some();
        let prev_path = copy_shown_path(&self.folder_player.file_path);
        let next_update = self.folder_player.update_image(now, &mut self.image_cache);
        let ghost f1 = self.folder_player;
        let ghost c1 = self.image_cache;
        assert(updated(f0, now, c0, f1, c1, next_update));
        let new_shown = self.folder_player.image_texture.is_some();
        let same = same_shown_path(&prev_path, &self.folder_player.file_path);
        let changed = prev_shown != new_shown || !same;
        assert(changed == shown_file_changed(f0, f1));
        if changed {
            self.image_player.start_playback_forward(now);
            self.image_player.request_load(LoadRequest::Jump(0));
        }
        let still = self.image_cache.loaded_still_image();
        assert(still == still_image_loaded(c1));
        if still {
            self.image_player.pause_playback();
        }
        let ghost fr = self.image_player;
        assert(prepared(fr0, fr, changed, still, now));
        let img_next = self.image_player.update_image(now, &mut self.image_cache);
        assert(updated(fr, now, c1, self.image_player, self.image_cache, img_next));
        let r = next_update.aggregate(img_next);
        assert(self.folder() == f1);
        assert(updated(f0, now, c0, self.folder(), c1, next_update));
        assert(updated(fr, now, c1, self.frames(), self.cache(), img_next));
        r
    }
}

} // verus!
