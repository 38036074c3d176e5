//! The cache of loaded images: which files were requested from the loader, which
//! frames arrived, and which are kept within the memory budget.

use vstd::prelude::*;
use crate::image_cache::directory::{
    changed_directory, check_panics, curr_item, curr_name, directory_updated, file_selected,
    filter_checked, filter_done, ids_fit, index_set, lemma_next_image_is_image,
    lemma_prev_image_in_range, moved_to, next_image, prev_image, same_state, supported_item,
    supported_indices, Directory, DirItem,
    Error as DirError, ListedEntry, first_named, image_index_after, images_after_check, slot_panics,
};
use crate::parallel_action::ActionState;
use crate::image_cache::image_loader::{LoadRequest, LoadResult, Orientation, result_req_id};
use crate::image_cache::pending_requests::{
    arrived, cancelled_state, finished_map, PendingRequests, RequestState, taken_map, unfinished_ids,
};
use crate::image_cache::{
    MAX_FRAME_DELAY_NANOS, anim_size, by_distance, frame_fits, frames_fit, get_anim_size_estimate, greedy_keep, image_size,
    retained_entries, size_fits, AnimationFrameTexture,
};

verus! {

/// The most requests that may be waiting on the loader at once.
pub const MAX_PENDING_REQUESTS: usize = 5;

/// The priority request id that names no request: every request may be loaded.
pub const NON_EXISTENT_REQUEST_ID: u32 = 0xffff_ffff;

/// The size assumed for an image that is not loaded yet: 1 kB, an optimistic guess.
pub const INITIAL_SIZE_ESTIMATE: i64 = 1000;

/// Why the cache could not hand out an image.
#[derive(Debug)]
pub enum CacheError {
    /// The image is being loaded; ask again later.
    WaitingOnLoader,
    /// The folder is still being sorted into images and other files.
    WaitingOnDirFilter,
    /// The image with this request id could not be loaded.
    FailedToLoadImage(u32),
    /// Reading or navigating the folder failed.
    Directory(DirError),
    /// There is no current file.
    NoCurrentFile,
    /// A jump by index needs a folder with images that has finished filtering.
    NoImageToJump,
}

/// The frames that arrived for one request, and what is known of them.
pub struct CachedTexture<F> {
    pub req_id: u32,
    /// Set when the folder was read again: the file may have changed since.
    pub needs_update: bool,
    /// The modification time of the file when it was loaded.
    pub mod_time: Option<u64>,
    /// Every frame has arrived (or the load failed).
    pub fully_loaded: bool,
    pub failed: bool,
    pub frames: Vec<AnimationFrameTexture<F>>,
}

/// What a cache entry holds, as values.
pub struct TextureState<F> {
    pub req_id: u32,
    pub needs_update: bool,
    pub mod_time: Option<u64>,
    pub fully_loaded: bool,
    pub failed: bool,
    pub frames: Seq<AnimationFrameTexture<F>>,
}

impl<F> CachedTexture<F> {
    /// The entry as values.
    pub open spec fn state(&self) -> TextureState<F> {
        TextureState {
            req_id: self.req_id,
            needs_update: self.needs_update,
            mod_time: self.mod_time,
            fully_loaded: self.fully_loaded,
            failed: self.failed,
            frames: self.frames@,
        }
    }
}

/// The entries as values.
pub open spec fn texture_states<F>(t: Seq<CachedTexture<F>>) -> Seq<TextureState<F>> {
    t.map_values(|c: CachedTexture<F>| c.state())
}

/// The entries are ordered by request id, each id once.
pub open spec fn keys_sorted<F>(t: Seq<TextureState<F>>) -> bool {
    forall|i: int, j: int| 0 <= i < j < t.len() ==> #[trigger] t[i].req_id < #[trigger] t[j].req_id
}

/// There is an entry for `id`.
pub open spec fn has_key<F>(t: Seq<TextureState<F>>, id: u32) -> bool {
    exists|i: int| 0 <= i < t.len() && #[trigger] t[i].req_id == id
}

/// The position of the entry for `id`.
pub open spec fn key_index<F>(t: Seq<TextureState<F>>, id: u32) -> int {
    choose|i: int| 0 <= i < t.len() && #[trigger] t[i].req_id == id
}

/// The entry for `id`.
pub open spec fn entry<F>(t: Seq<TextureState<F>>, id: u32) -> TextureState<F> {
    t[key_index(t, id)]
}

/// The position `p` separates the ids below `id` from those above it.
pub open spec fn separates<F>(t: Seq<TextureState<F>>, id: u32, p: int) -> bool {
    &&& 0 <= p <= t.len()
    &&& forall|k: int| 0 <= k < p ==> #[trigger] t[k].req_id < id
    &&& forall|k: int| p <= k < t.len() ==> #[trigger] t[k].req_id > id
}

/// The position at which an entry for `id` belongs: after the smaller ids, before the
/// larger ones.
pub open spec fn insert_index<F>(t: Seq<TextureState<F>>, id: u32) -> int {
    choose|p: int| #[trigger] separates(t, id, p)
}

/// Every frame cached fits the 32-bit size estimate.
pub open spec fn textures_fit<F>(t: Seq<TextureState<F>>) -> bool {
    forall|i: int| 0 <= i < t.len() ==> #[trigger] frames_fit(t[i].frames)
}

/// A frame result that fits (see `frame_fits`); other results always do.
pub open spec fn result_fits<F>(r: LoadResult<F>) -> bool {
    match r {
        LoadResult::Frame { width, height, delay_nano, .. } => frame_fits(width, height, delay_nano),
        _ => true,
    }
}

/// Every result waiting in `p` fits.
pub open spec fn pending_fit<F>(p: Map<u32, RequestState<F>>) -> bool {
    forall|id: u32, k: int|
        p.dom().contains(id) && 0 <= k < p[id].2.len() ==> #[trigger] result_fits(p[id].2[k])
}

/// A new entry: nothing arrived but the file's modification time.
pub open spec fn fresh_texture<F>(id: u32, mod_time: Option<u64>) -> TextureState<F> {
    TextureState {
        req_id: id,
        needs_update: false,
        mod_time,
        fully_loaded: false,
        failed: false,
        frames: Seq::empty(),
    }
}

/// The parts of the cache that loading changes: the requests, the entries, the
/// capacity left, the priority request, and the requests not yet handed out.
pub struct CacheState<F> {
    pub pending: Map<u32, RequestState<F>>,
    pub textures: Seq<TextureState<F>>,
    pub remaining: i64,
    pub priority: u32,
    pub outgoing: Seq<LoadRequest>,
}

/// The request `id` is waiting for results, and was not cancelled.
pub open spec fn active<F>(p: Map<u32, RequestState<F>>, id: u32) -> bool {
    p.dom().contains(id) && !p[id].1 && !p[id].0
}

/// The entries with the entry for `id` replaced by `e`.
pub open spec fn with_entry<F>(t: Seq<TextureState<F>>, id: u32, e: TextureState<F>) -> Seq<
    TextureState<F>,
> {
    t.update(key_index(t, id), e)
}

/// The priority request once `id` is done: released if it was `id`.
pub open spec fn released(priority: u32, id: u32) -> u32 {
    if priority == id {
        NON_EXISTENT_REQUEST_ID
    } else {
        priority
    }
}

/// What handling one load result does to the cache, and what it answers.
/// - `Start`: a new entry for an active request, or the old entry emptied (its size
///   given back) unless the file's modification time is known and unchanged.
/// - `Frame`: the frame is appended to the entry of an active request, its size taken
///   from the capacity.
/// - `Done` and `Failed`: the entry is complete (and failed), the priority released,
///   the request finished; `Failed` answers an error.
pub open spec fn upload_step<F>(s: CacheState<F>, lr: LoadResult<F>) -> (CacheState<F>, Result<
    (),
    CacheError,
>) {
    let id = result_req_id(lr);
    match lr {
        LoadResult::Start { mod_time, .. } => {
            if !active(s.pending, id) {
                (s, Ok(()))
            } else if !has_key(s.textures, id) {
                (
                    CacheState {
                        textures: s.textures.insert(
                            insert_index(s.textures, id),
                            fresh_texture(id, mod_time),
                        ),
                        ..s
                    },
                    Ok(()),
                )
            } else {
                let e = entry(s.textures, id);
                if mod_time is Some && e.mod_time == mod_time {
                    (s, Ok(()))
                } else {
                    (
                        CacheState {
                            textures: with_entry(
                                s.textures,
                                id,
                                TextureState { frames: Seq::empty(), mod_time, ..e },
                            ),
                            remaining: clamp64(s.remaining + anim_size(e.frames)),
                            ..s
                        },
                        Ok(()),
                    )
                }
            }
        },
        LoadResult::Frame { image, width, height, delay_nano, orientation, .. } => {
            if !active(s.pending, id) || !has_key(s.textures, id) {
                (s, Ok(()))
            } else {
                let e = entry(s.textures, id);
                let f = AnimationFrameTexture { image, width, height, delay_nano, orientation };
                (
                    CacheState {
                        textures: with_entry(
                            s.textures,
                            id,
                            TextureState { frames: e.frames.push(f), ..e },
                        ),
                        remaining: clamp64(s.remaining - image_size(width, height)),
                        ..s
                    },
                    Ok(()),
                )
            }
        },
        LoadResult::Done { .. } => {
            let textures = if has_key(s.textures, id) {
                with_entry(s.textures, id, TextureState { fully_loaded: true, ..entry(s.textures, id) })
            } else {
                s.textures
            };
            (
                CacheState {
                    pending: finished_map(s.pending, id),
                    textures,
                    priority: released(s.priority, id),
                    ..s
                },
                Ok(()),
            )
        },
        LoadResult::Failed { .. } => {
            let textures = if has_key(s.textures, id) {
                with_entry(
                    s.textures,
                    id,
                    TextureState { fully_loaded: true, failed: true, ..entry(s.textures, id) },
                )
            } else {
                s.textures
            };
            (
                CacheState {
                    pending: finished_map(s.pending, id),
                    textures,
                    priority: released(s.priority, id),
                    ..s
                },
                Err(CacheError::FailedToLoadImage(id)),
            )
        },
    }
}

/// Handling the results `rs` in order; a result answered with an error does not stop
/// the rest. Also tells whether any result was answered without an error.
pub open spec fn upload_all<F>(s: CacheState<F>, rs: Seq<LoadResult<F>>) -> (CacheState<F>, bool)
    decreases rs.len(),
{
    if rs.len() == 0 {
        (s, false)
    } else {
        let prev = upload_all(s, rs.drop_last());
        let step = upload_step(prev.0, rs.last());
        (step.0, prev.1 || step.1 is Ok)
    }
}

/// Handling the results `rs` in order, stopping at the first error, which is answered.
pub open spec fn upload_until_err<F>(s: CacheState<F>, rs: Seq<LoadResult<F>>) -> (CacheState<F>, Result<
    (),
    CacheError,
>)
    decreases rs.len(),
{
    if rs.len() == 0 {
        (s, Ok(()))
    } else {
        let prev = upload_until_err(s, rs.drop_last());
        if prev.1 is Err {
            prev
        } else {
            upload_step(prev.0, rs.last())
        }
    }
}

/// The results waiting for `id`, and the state once they are taken out.
pub open spec fn taken<F>(s: CacheState<F>, id: u32) -> (CacheState<F>, Seq<LoadResult<F>>) {
    (
        CacheState { pending: taken_map(s.pending, id), ..s },
        if s.pending.dom().contains(id) {
            s.pending[id].2
        } else {
            Seq::empty()
        },
    )
}

/// Handling the waiting results request by request in the order `ids`, until a
/// request with results is met; its results are all handled.
pub open spec fn process_ids<F>(s: CacheState<F>, ids: Seq<u32>) -> CacheState<F>
    decreases ids.len(),
{
    if ids.len() == 0 {
        s
    } else {
        let t = taken(s, ids[0]);
        let u = upload_all(t.0, t.1);
        if u.1 {
            u.0
        } else {
            process_ids(u.0, ids.drop_first())
        }
    }
}

/// `s2` is `s` after handling the waiting results in some order of the requests.
pub open spec fn processed<F>(s: CacheState<F>, s2: CacheState<F>) -> bool {
    exists|ids: Seq<u32>|
        ids.no_duplicates() && ids.to_set() == s.pending.dom() && s2 == #[trigger] process_ids(s, ids)
}

/// The state before a request is considered: for a priority request with the
/// requests full, the waiting results are handled first.
pub open spec fn before_request<F>(s: CacheState<F>, s2: CacheState<F>, priority: bool) -> bool {
    if priority && unfinished_ids(s.pending).len() >= MAX_PENDING_REQUESTS {
        processed(s, s2)
    } else {
        s2 == s
    }
}

/// What a request does to the entry of its file, whose modification time is
/// `file_mod_time`: an entry that needs no update stops the request; otherwise its
/// update flag is cleared, and when both times are known, an unchanged file stops
/// the request and a changed one drops the entry. Answers the entries and whether the
/// request goes on.
pub open spec fn entry_check<F>(t: Seq<TextureState<F>>, id: u32, file_mod_time: Option<u64>) -> (
    Seq<TextureState<F>>,
    bool,
) {
    if !has_key(t, id) {
        (t, true)
    } else if !entry(t, id).needs_update {
        (t, false)
    } else {
        let cleared = with_entry(t, id, TextureState { needs_update: false, ..entry(t, id) });
        if entry(t, id).mod_time is Some && file_mod_time is Some {
            if entry(t, id).mod_time == file_mod_time {
                (cleared, false)
            } else {
                (cleared.remove(key_index(t, id)), true)
            }
        } else {
            (cleared, true)
        }
    }
}

/// Considering a request for the file `path` with id `id`, whose modification time
/// is `file_mod_time`: refused while the requests are full, or when `entry_check`
/// stops it. A priority request becomes the priority. A request already waiting is
/// not sent again; otherwise it is registered and queued for the loader. Answers
/// whether it was sent.
pub open spec fn request_step<F>(
    s: CacheState<F>,
    path: String,
    id: u32,
    file_mod_time: Option<u64>,
    priority: bool,
) -> (CacheState<F>, bool) {
    if unfinished_ids(s.pending).len() >= MAX_PENDING_REQUESTS {
        (s, false)
    } else {
        let c = entry_check(s.textures, id, file_mod_time);
        if !c.1 {
            (CacheState { textures: c.0, ..s }, false)
        } else {
            let prio = if priority {
                id
            } else {
                s.priority
            };
            if s.pending.dom().contains(id) && !s.pending[id].1 {
                (CacheState { textures: c.0, priority: prio, ..s }, false)
            } else {
                (
                    CacheState {
                        textures: c.0,
                        priority: prio,
                        pending: s.pending.insert(id, (false, false, Seq::empty())),
                        outgoing: s.outgoing.push(LoadRequest { req_id: id, path }),
                        ..s
                    },
                    true,
                )
            }
        }
    }
}

/// The images of the folder, in order.
pub open spec fn image_items(d: Directory) -> Seq<DirItem> {
    Seq::new(d.image_files().len(), |k: int| d.files()[d.image_files()[k] as int])
}

/// Prefetching walks the images after `index` while the estimated capacity `cap`
/// exceeds one image estimate: each image is requested (without priority) while the
/// capacity left exceeds the estimate, and the walk stops at the first request not sent.
pub open spec fn prefetch_walk<F>(s: CacheState<F>, imgs: Seq<DirItem>, index: int, cap: int) -> CacheState<F>
    decreases cap,
{
    if cap <= INITIAL_SIZE_ESTIMATE {
        s
    } else {
        let i = index + 1;
        if s.remaining <= INITIAL_SIZE_ESTIMATE || !(0 <= i < imgs.len()) {
            s
        } else {
            let step = request_step(s, imgs[i].path, imgs[i].request_id, imgs[i].modified, false);
            if step.1 {
                prefetch_walk(step.0, imgs, i, cap - INITIAL_SIZE_ESTIMATE)
            } else {
                step.0
            }
        }
    }
}

/// The estimated size of each entry.
pub open spec fn entry_sizes<F>(t: Seq<TextureState<F>>) -> Seq<i128> {
    t.map_values(|e: TextureState<F>| anim_size(e.frames) as i128)
}

/// The entries at the positions in `kept`, in order.
pub open spec fn keep_positions<F>(t: Seq<TextureState<F>>, kept: Set<int>) -> Seq<TextureState<F>>
    decreases t.len(),
{
    if t.len() == 0 {
        Seq::empty()
    } else {
        let p = keep_positions(t.drop_last(), kept);
        if kept.contains(t.len() - 1) {
            p.push(t.last())
        } else {
            p
        }
    }
}

/// Evicting around the image index `c`: walking the entries nearest to `c` first (by
/// their position among the entries), an entry stays while the capacity left exceeds
/// its size plus one image estimate; the capacity left is what the kept entries leave
/// of `total`.
pub open spec fn evicted<F>(s: CacheState<F>, s2: CacheState<F>, total: i64, c: int) -> bool {
    exists|order: Seq<int>|
        #[trigger] by_distance(order, s.textures.len() as int, c) && {
            let g = greedy_keep(
                order,
                entry_sizes(s.textures),
                total as int,
                INITIAL_SIZE_ESTIMATE as int,
            );
            &&& s2.textures == keep_positions(s.textures, g.0)
            &&& s2.remaining == g.1
            &&& s2.pending == s.pending
            &&& s2.priority == s.priority
            &&& s2.outgoing == s.outgoing
        }
}

/// The frame shown for `frame_id` among `count` frames: frame numbers wrap around,
/// negative ones counting back from the end.
pub open spec fn wrap_frame(frame_id: int, count: int) -> int {
    frame_id % count
}

/// A negative frame number `-m` wraps to the frame `m mod count` places before the
/// end, or to the first frame when `m` is a multiple of `count`.
proof fn lemma_wrap_negative(m: int, count: int)
    requires
        m > 0,
        count > 0,
    ensures
        wrap_frame(-m, count) == (if m % count == 0 {
            0
        } else {
            count - m % count
        }),
{
    vstd::arithmetic::div_mod::lemma_fundamental_div_mod(m, count);
    let q = m / count;
    let r = m % count;
    if r == 0 {
        assert(-m == (-q) * count + 0) by (nonlinear_arith)
            requires
                m == count * q + r,
                r == 0,
        ;
        vstd::arithmetic::div_mod::lemma_fundamental_div_mod_converse(-m, count, -q, 0);
    } else {
        assert(-m == (-q - 1) * count + (count - r)) by (nonlinear_arith)
            requires
                m == count * q + r,
        ;
        vstd::arithmetic::div_mod::lemma_fundamental_div_mod_converse(-m, count, -q - 1, count - r);
    }
}

/// Whether the entry `e` answers the request for `frame_id`: its file is unchanged
/// (or its modification time unknown), and the frame has arrived or every frame has.
/// Answers the frame's position.
pub open spec fn cached_frame<F>(e: TextureState<F>, file_mod_time: Option<u64>, frame_id: int) -> Option<int> {
    let count = e.frames.len() as int;
    let unchanged = match file_mod_time {
        Some(m) => e.mod_time == Some(m),
        None => true,
    };
    if unchanged && count > 0 && (e.fully_loaded || (0 <= frame_id < count)) {
        let w = wrap_frame(frame_id, count);
        if 0 <= w < count {
            Some(w)
        } else {
            None
        }
    } else {
        None
    }
}

/// What asking for the frame `frame_id` of the file `d` does, once the results
/// waiting for it were handled without error and left the state `s`: the frame when
/// the entry holds it, an error for a failed entry, and `WaitingOnLoader` otherwise;
/// without an entry, a waiting request becomes the priority, and otherwise the file
/// is requested with priority (the resulting state is described by `requested`).
pub open spec fn lookup_outcome<F: Clone>(
    s: CacheState<F>,
    s2: CacheState<F>,
    d: DirItem,
    frame_id: int,
    frame_index: usize,
    frame_index2: usize,
    r: Result<AnimationFrameTexture<F>, CacheError>,
) -> bool {
    let id = d.request_id;
    if has_key(s.textures, id) {
        let e = entry(s.textures, id);
        &&& s2 == s
        &&& if e.failed {
            r == Err::<AnimationFrameTexture<F>, CacheError>(CacheError::FailedToLoadImage(id))
                && frame_index2 == frame_index
        } else {
            match cached_frame(e, d.modified, frame_id) {
                Some(w) => frame_index2 == w && (r matches Ok(f) && same_frame(e.frames[w], f)),
                None => r == Err::<AnimationFrameTexture<F>, CacheError>(CacheError::WaitingOnLoader)
                    && frame_index2 == frame_index,
            }
        }
    } else {
        &&& r == Err::<AnimationFrameTexture<F>, CacheError>(CacheError::WaitingOnLoader)
        &&& frame_index2 == frame_index
        &&& if s.pending.dom().contains(id) && !s.pending[id].1 {
            s2 == CacheState { priority: id, ..s }
        } else {
            requested(s, s2, d)
        }
    }
}

/// `b` is a copy of the frame `a`.
pub open spec fn same_frame<F: Clone>(a: AnimationFrameTexture<F>, b: AnimationFrameTexture<F>) -> bool {
    &&& b.width == a.width
    &&& b.height == a.height
    &&& b.delay_nano == a.delay_nano
    &&& b.orientation == a.orientation
    &&& cloned::<F>(a.image, b.image)
}

/// `s2` is `s` after the file `d` is requested with priority.
pub open spec fn requested<F>(s: CacheState<F>, s2: CacheState<F>, d: DirItem) -> bool {
    exists|mid: CacheState<F>|
        #[trigger] before_request(s, mid, true) && s2 == request_step(
            mid,
            d.path,
            d.request_id,
            d.modified,
            true,
        ).0
}

/// All of the cache, as values: the folder, the current frame, and the loading state.
pub struct CacheView<F> {
    pub dir: Directory,
    pub frame_index: usize,
    pub state: CacheState<F>,
}

/// The text of an optional name.
pub open spec fn name_view(n: Option<&str>) -> Option<Seq<char>> {
    match n {
        Some(x) => Some(x@),
        None => None,
    }
}

/// `v` with the folder `d`.
pub open spec fn with_dir<F>(v: CacheView<F>, d: Directory) -> CacheView<F> {
    CacheView { dir: d, frame_index: v.frame_index, state: v.state }
}

/// The frame asked for when loading: the one given, else the current frame when the
/// image index did not change, else the first.
pub open spec fn requested_frame(
    prev: Option<usize>,
    curr: Option<usize>,
    frame_id: Option<isize>,
    frame_index: usize,
) -> isize {
    match frame_id {
        Some(f) => f,
        None => if prev is Some && curr is Some && prev == curr {
            frame_index as isize
        } else {
            0
        },
    }
}

/// The cache after `refresh_cache`.
pub open spec fn refreshed<F>(v: CacheView<F>, v2: CacheView<F>, total: i64) -> bool {
    &&& v2.frame_index == v.frame_index
    &&& filter_checked(v.dir, v2.dir)
    &&& if filter_done(v.dir) {
        evicted(v.state, v2.state, total, v2.dir.curr_image() as int)
    } else {
        v2.state == v.state
    }
}

/// The cache and the answer after asking for the frame `frame_id` of the current file.
pub open spec fn looked_up<F: Clone>(
    v: CacheView<F>,
    v2: CacheView<F>,
    frame_id: isize,
    r: Result<AnimationFrameTexture<F>, CacheError>,
) -> bool {
    &&& v2.dir == v.dir
    &&& match curr_item(v.dir) {
        None => r == Err::<AnimationFrameTexture<F>, CacheError>(CacheError::NoCurrentFile)
            && v2.state == v.state && v2.frame_index == v.frame_index,
        Some(d) => {
            let t = taken(v.state, d.request_id);
            let u = upload_until_err(t.0, t.1);
            if u.1 is Err {
                &&& v2.state == u.0
                &&& r matches Err(e) && u.1 == Err::<(), CacheError>(e)
                &&& v2.frame_index == v.frame_index
            } else {
                lookup_outcome(u.0, v2.state, d, frame_id as int, v.frame_index, v2.frame_index, r)
            }
        },
    }
}

/// Refreshing the cache, then asking for the frame `frame_id`.
pub open spec fn refreshed_then_looked_up<F: Clone>(
    v: CacheView<F>,
    v2: CacheView<F>,
    total: i64,
    frame_id: isize,
    r: Result<AnimationFrameTexture<F>, CacheError>,
) -> bool {
    exists|v1: CacheView<F>| #[trigger] refreshed(v, v1, total) && looked_up(v1, v2, frame_id, r)
}

/// What loading the current file does: once a ready filter output is taken, the
/// current image index is made current again (its error is answered); then the cache is
/// refreshed and the frame asked for (see `requested_frame`, with `prev` the image index
/// before the folder was selected) is looked up.
pub open spec fn load_tail<F: Clone>(
    v: CacheView<F>,
    v2: CacheView<F>,
    total: i64,
    prev: Option<usize>,
    frame_id: Option<isize>,
    r: Result<AnimationFrameTexture<F>, CacheError>,
) -> bool {
    exists|d1: Directory|
        #[trigger] filter_checked(v.dir, d1) && if filter_done(v.dir) {
            let x = d1.curr_image();
            exists|d2: Directory, r2: Result<(), DirError>|
                #[trigger] index_set(d1, d2, x as int, r2) && match r2 {
                    Err(e) => v2 == with_dir(v, d2) && r == Err::<
                        AnimationFrameTexture<F>,
                        CacheError,
                    >(CacheError::Directory(e)),
                    Ok(()) => refreshed_then_looked_up(
                        with_dir(v, d2),
                        v2,
                        total,
                        requested_frame(prev, Some(x), frame_id, v.frame_index),
                        r,
                    ),
                }
        } else {
            refreshed_then_looked_up(
                with_dir(v, d1),
                v2,
                total,
                requested_frame(prev, None, frame_id, v.frame_index),
                r,
            )
        }
}

/// The loading state once the cache is emptied for another folder: no entry, the
/// whole capacity left, every unfinished request cancelled.
pub open spec fn emptied<F>(s: CacheState<F>, total: i64) -> CacheState<F> {
    CacheState {
        textures: Seq::empty(),
        remaining: total,
        pending: Map::new(
            |id: u32| s.pending.dom().contains(id),
            |id: u32| cancelled_state(s.pending[id]),
        ),
        ..s
    }
}

/// Selecting the folder `folder`, and the file `name` in it when one is given, as
/// `load_specific` does. Changing to another folder without a file name empties the
/// cache and starts at the first frame.
pub open spec fn target_selected<F>(
    v: CacheView<F>,
    v2: CacheView<F>,
    total: i64,
    folder: Seq<char>,
    name: Option<Seq<char>>,
    listing: Result<Vec<ListedEntry>, String>,
    r: Result<(), DirError>,
) -> bool {
    match name {
        Some(n) => v2.state == v.state && v2.frame_index == v.frame_index && file_selected(
            v.dir,
            v2.dir,
            folder,
            listing,
            n,
            r,
        ),
        None => {
            &&& changed_directory(v.dir, v2.dir, folder, listing, r)
            &&& v2.state == (if v.dir.path_view() == folder {
                v.state
            } else {
                emptied(v.state, total)
            })
            &&& v2.frame_index == (if r is Ok {
                0
            } else {
                v.frame_index
            })
        },
    }
}

/// Selecting the target cannot fail in a way the folder does not answer: a listing
/// of another folder fits the request ids, and the file named in the current folder,
/// when one is given, has an image index.
pub open spec fn target_safe(
    d: Directory,
    folder: Seq<char>,
    name: Option<Seq<char>>,
    listing: Result<Vec<ListedEntry>, String>,
) -> bool {
    &&& d.path_view() != folder ==> ids_fit(d, listing)
    &&& d.path_view() == folder ==> match name {
        Some(n) => match first_named(d.files(), n) {
            Some(f) => !slot_panics(d.slots(), f) && !check_panics(d, f),
            None => true,
        },
        None => true,
    }
}

/// The entries after the folder is read again: every entry needs an update.
pub open spec fn marked_for_update<F>(t: Seq<TextureState<F>>) -> Seq<TextureState<F>> {
    t.map_values(|e: TextureState<F>| TextureState { needs_update: true, ..e })
}

/// A loaded frame paired with the path of its file, or the error unchanged.
pub open spec fn with_path<F>(
    r0: Result<AnimationFrameTexture<F>, CacheError>,
    path: Seq<char>,
    r: Result<(AnimationFrameTexture<F>, String), CacheError>,
) -> bool {
    match r0 {
        Ok(f) => r matches Ok(p) && p.0 == f && p.1@ == path,
        Err(e) => r == Err::<(AnimationFrameTexture<F>, String), CacheError>(e),
    }
}

/// The path of the current file, empty when there is none.
pub open spec fn curr_path(d: Directory) -> Seq<char> {
    match curr_item(d) {
        Some(it) => it.path@,
        None => Seq::empty(),
    }
}

/// `v` at the frame `fi`.
pub open spec fn at_frame<F>(v: CacheView<F>, fi: usize) -> CacheView<F> {
    CacheView { dir: v.dir, frame_index: fi, state: v.state }
}

/// The image index a filter check answers: known once the filter has finished.
pub open spec fn checked_index(pre: Directory, post: Directory) -> Option<usize> {
    if filter_done(pre) {
        Some(post.curr_image())
    } else {
        None
    }
}

/// Loading the file the folder moved to, as loading a file of the open folder does:
/// the image index is read again (a filter check from `v.dir` to `d1`), then the file
/// is loaded from its first frame.
pub open spec fn loaded_from_start<F: Clone>(
    v: CacheView<F>,
    v2: CacheView<F>,
    total: i64,
    r: Result<AnimationFrameTexture<F>, CacheError>,
) -> bool {
    exists|d1: Directory|
        #[trigger] filter_checked(v.dir, d1) && load_tail(
            at_frame(with_dir(v, d1), 0),
            v2,
            total,
            checked_index(v.dir, d1),
            None,
            r,
        )
}

/// Moving to the next image (for a positive `step`) or the previous one, wrapping
/// around; staying when there is no other image.
pub open spec fn jumped(pre: Directory, post: Directory, step: int) -> bool {
    let target = if step > 0 {
        next_image(pre.files(), pre.curr_file() as int)
    } else {
        prev_image(pre.files(), pre.curr_file() as int)
    };
    match target {
        Some(i) => moved_to(pre, post, i, image_index_after(pre.slots(), i, pre.curr_image()) as int),
        None => same_state(pre, post),
    }
}

/// What `load_jump` does:
/// - a jump of zero files looks up the frame `current frame + frame_jump_count` (the sum
///   wraps around the range of `isize`);
/// - a jump of one file steps to the next or previous image (see `jumped`) and loads it
///   from its first frame;
/// - a longer jump, once the folder is filtered and holds images, moves the image index
///   by the jump modulo the number of images; otherwise it answers `NoImageToJump`.
/// The frame is answered with the path of its file.
pub open spec fn jump_outcome<F: Clone>(
    v: CacheView<F>,
    v2: CacheView<F>,
    total: i64,
    file_jump_count: i32,
    frame_jump_count: isize,
    r: Result<(AnimationFrameTexture<F>, String), CacheError>,
) -> bool {
    &&& (file_jump_count == 0 ==> exists|r0: Result<AnimationFrameTexture<F>, CacheError>|
        #[trigger] looked_up(
            v,
            v2,
            (v.frame_index as isize).wrapping_add(frame_jump_count),
            r0,
        ) && with_path(r0, curr_path(v2.dir), r))
    &&& (file_jump_count == 1 || file_jump_count == -1 ==> exists|
        d1: Directory,
        r0: Result<AnimationFrameTexture<F>, CacheError>,
    |
        #[trigger] jumped(v.dir, d1, file_jump_count as int) && #[trigger] loaded_from_start(
            with_dir(v, d1),
            v2,
            total,
            r0,
        ) && with_path(r0, curr_path(d1), r))
    &&& (file_jump_count > 1 || file_jump_count < -1 ==> exists|d1: Directory|
        #[trigger] filter_checked(v.dir, d1) && if filter_done(v.dir)
            && d1.image_files().len() > 0 {
            let t = (d1.curr_image() + file_jump_count) % (d1.image_files().len() as int);
            exists|d2: Directory, r0: Result<AnimationFrameTexture<F>, CacheError>|
                #[trigger] moved_to(d1, d2, d1.image_files()[t] as int, t) && #[trigger] load_tail(
                    at_frame(with_dir(v, d2), 0),
                    v2,
                    total,
                    Some(d1.curr_image()),
                    None,
                    r0,
                ) && with_path(r0, d1.files()[d1.image_files()[t] as int].path@, r)
        } else {
            v2 == at_frame(with_dir(v, d1), 0) && r == Err::<
                (AnimationFrameTexture<F>, String),
                CacheError,
            >(CacheError::NoImageToJump)
        })
}

/// What `load_at_index` does: once the folder is filtered, the image `index` is made
/// current and loaded (see `load_tail`, with the image index before as the previous
/// one), and its frame answered with its path; `WaitingOnDirFilter` while the folder is
/// being filtered or past the images.
pub open spec fn index_outcome<F: Clone>(
    v: CacheView<F>,
    v2: CacheView<F>,
    total: i64,
    index: usize,
    frame_id: Option<isize>,
    r: Result<(AnimationFrameTexture<F>, String), CacheError>,
) -> bool {
    exists|d1: Directory|
        #[trigger] filter_checked(v.dir, d1) && if filter_done(v.dir) && index
            < d1.image_files().len() {
            let path = d1.files()[d1.image_files()[index as int] as int].path@;
            exists|d2: Directory, r0: Result<AnimationFrameTexture<F>, CacheError>|
                #[trigger] moved_to(d1, d2, d1.image_files()[index as int] as int, index as int)
                    && load_tail(with_dir(v, d2), v2, total, Some(d1.curr_image()), frame_id, r0)
                    && #[trigger] with_path(r0, path, r)
        } else {
            v2 == with_dir(v, d1) && r == Err::<
                (AnimationFrameTexture<F>, String),
                CacheError,
            >(CacheError::WaitingOnDirFilter)
        }
}

/// What `load_specific` does: once the image index is read (a filter check from
/// `v.dir` to `d0`), the target is selected (see `target_selected`); a selection error is
/// answered, otherwise the current file is loaded (see `load_tail`).
pub open spec fn specific_outcome<F: Clone>(
    v: CacheView<F>,
    v2: CacheView<F>,
    total: i64,
    folder: Seq<char>,
    name: Option<Seq<char>>,
    listing: Result<Vec<ListedEntry>, String>,
    frame_id: Option<isize>,
    r: Result<AnimationFrameTexture<F>, CacheError>,
) -> bool {
    exists|d0: Directory, v1: CacheView<F>, r1: Result<(), DirError>|
        #[trigger] filter_checked(v.dir, d0) && #[trigger] target_selected(
            with_dir(v, d0),
            v1,
            total,
            folder,
            name,
            listing,
            r1,
        ) && match r1 {
            Err(e) => v2 == v1 && r == Err::<AnimationFrameTexture<F>, CacheError>(
                CacheError::Directory(e),
            ),
            Ok(()) => load_tail(
                v1,
                v2,
                total,
                if filter_done(v.dir) {
                    Some(d0.curr_image())
                } else {
                    None
                },
                frame_id,
                r,
            ),
        }
}

/// `x` as an `i64`, clamped to the range of `i64`.
pub open spec fn clamp64(x: int) -> i64 {
    if x > i64::MAX {
        i64::MAX
    } else if x < i64::MIN {
        i64::MIN
    } else {
        x as i64
    }
}

/// The store of the images of the open folder.
#[verifier::reject_recursive_types(F)]
pub struct ImageCache<F> {
    dir: Directory,
    current_frame_idx: usize,
    remaining_capacity: i64,
    total_capacity: i64,
    curr_est_size: i64,
    pending_requests: PendingRequests<F>,
    texture_cache: Vec<CachedTexture<F>>,
    /// Requests for the loader that were not handed out yet.
    outgoing: Vec<LoadRequest>,
    /// The request the loader threads should take before any other.
    priority_request_id: u32,
}

impl<F> ImageCache<F> {
    pub closed spec fn dir(&self) -> Directory {
        self.dir
    }

    pub closed spec fn frame_index(&self) -> usize {
        self.current_frame_idx
    }

    pub closed spec fn remaining(&self) -> i64 {
        self.remaining_capacity
    }

    pub closed spec fn total(&self) -> i64 {
        self.total_capacity
    }

    pub closed spec fn pending(&self) -> Map<u32, RequestState<F>> {
        self.pending_requests.view()
    }

    pub closed spec fn textures(&self) -> Seq<TextureState<F>> {
        texture_states(self.texture_cache@)
    }

    pub closed spec fn outgoing(&self) -> Seq<LoadRequest> {
        self.outgoing@
    }

    pub closed spec fn priority(&self) -> u32 {
        self.priority_request_id
    }

    /// All of the cache, as values.
    pub open spec fn full(&self) -> CacheView<F> {
        CacheView { dir: self.dir(), frame_index: self.frame_index(), state: self.state() }
    }

    /// The parts that loading changes.
    pub open spec fn state(&self) -> CacheState<F> {
        CacheState {
            pending: self.pending(),
            textures: self.textures(),
            remaining: self.remaining(),
            priority: self.priority(),
            outgoing: self.outgoing(),
        }
    }

    /// The parts agree: the folder and the request list are well formed, the entries
    /// are ordered by id, and every frame, cached or waiting, fits its size estimate.
    pub closed spec fn wf(&self) -> bool {
        &&& self.dir.wf()
        &&& self.pending_requests.wf()
        &&& keys_sorted(self.textures())
        &&& textures_fit(self.textures())
        &&& pending_fit(self.pending_requests.view())
        &&& self.curr_est_size == INITIAL_SIZE_ESTIMATE
    }

    /// Taking a ready folder filter output now would not fail.
    pub open spec fn dir_safe(&self) -> bool {
        !check_panics(self.dir(), self.dir().curr_file() as int)
    }

    /// An empty cache with a budget of `capacity` bytes.
    pub fn new(capacity: i64) -> (r: Self)
        ensures
            r.wf(),
            r.dir_safe(),
            r.dir().files() == Seq::<DirItem>::empty(),
            r.dir().path_view() == Seq::<char>::empty(),
            r.frame_index() == 0,
            r.remaining() == capacity,
            r.total() == capacity,
            r.pending() == Map::<u32, RequestState<F>>::empty(),
            r.textures() == Seq::<TextureState<F>>::empty(),
            r.outgoing() == Seq::<LoadRequest>::empty(),
            r.priority() == 0,
    {
        let r = ImageCache {
            dir: Directory::new(),
            current_frame_idx: 0,
            remaining_capacity: capacity,
            total_capacity: capacity,
            curr_est_size: INITIAL_SIZE_ESTIMATE,
            pending_requests: PendingRequests::new(),
            texture_cache: Vec::new(),
            outgoing: Vec::new(),
            priority_request_id: 0,
        };
        assert(pending_fit(r.pending_requests.view()));
        assert(r.textures() =~= Seq::<TextureState<F>>::empty());
        r
    }

    /// The position of the entry for `id`, or where it would go.
    fn find_texture(&self, id: u32) -> (r: Result<usize, usize>)
        requires
            keys_sorted(self.textures()),
        ensures
            r matches Ok(j) ==> j < self.textures().len() && self.textures()[j as int].req_id == id,
            r matches Ok(j) ==> has_key(self.textures(), id) && key_index(self.textures(), id) == j,
            r matches Err(p) ==> !has_key(self.textures(), id),
            r matches Err(p) ==> p <= self.textures().len() && insert_index(self.textures(), id) == p
                && separates(self.textures(), id, p as int),
    {
        let t = &self.texture_cache;
        let ghost ts = self.textures();
        let mut i: usize = 0;
        while i < t.len()
            invariant
                i <= t.len(),
                ts == texture_states(t@),
                ts.len() == t.len(),
                ts == self.textures(),
                keys_sorted(ts),
                forall|k: int| 0 <= k < i ==> #[trigger] ts[k].req_id < id,
            decreases t.len() - i,
        {
            assert(ts[i as int].req_id == t@[i as int].req_id);
            if t[i].req_id == id {
                proof {
                    assert(ts[i as int].req_id == id);
                    assert(has_key(ts, id));
                    let j = key_index(ts, id);
                    assert(ts[j].req_id == id);
                    if j < i {
                        assert(ts[j].req_id < ts[i as int].req_id);
                    } else if j > i {
                        assert(ts[i as int].req_id < ts[j].req_id);
                    }
                }
                return Ok(i);
            }
            if t[i].req_id > id {
                proof {
                    assert forall|k: int| i <= k < ts.len() implies #[trigger] ts[k].req_id > id by {
                        if k > i {
                            assert(ts[i as int].req_id < ts[k].req_id);
                        }
                    };
                    lemma_insert_index_unique(ts, id, i as int);
                }
                return Err(i);
            }
            i = i + 1;
        }
        proof {
            lemma_insert_index_unique(ts, id, i as int);
        }
        Err(i)
    }

    /// The name of the current file, empty when there is none.
    pub fn current_filename(&self) -> (r: String)
        ensures
            r@ == curr_name(self.dir()),
    {
        self.dir.curr_filename()
    }

    /// The path of the current file, if there is one.
    pub fn current_file_path(&self) -> (r: Option<String>)
        ensures
            r matches Some(p) ==> self.dir().curr_file() < self.dir().files().len() && p@
                == self.dir().files()[self.dir().curr_file() as int].path@,
            r is None ==> self.dir().curr_file() >= self.dir().files().len(),
    {
        match self.dir.curr_descriptor() {
            Some(d) => Some(d.path.clone()),
            None => None,
        }
    }

    /// The path of the open folder.
    pub fn dir_path(&self) -> (r: &str)
        ensures
            r@ == self.dir().path_view(),
    {
        self.dir.path()
    }

    /// Whether taking the ready folder filter output now would fail.
    pub fn filter_would_panic(&self) -> (r: bool)
        requires
            self.wf(),
        ensures
            r == !self.dir_safe(),
    {
        self.dir.filter_would_panic()
    }

    /// Hands out the requests for the loader made since the last call, oldest first.
    pub fn take_outgoing_requests(&mut self) -> (r: Vec<LoadRequest>)
        requires
            old(self).wf(),
        ensures
            final(self).wf(),
            r@ == old(self).outgoing(),
            final(self).outgoing() == Seq::<LoadRequest>::empty(),
            final(self).dir() == old(self).dir(),
            final(self).textures() == old(self).textures(),
            final(self).pending() == old(self).pending(),
            final(self).remaining() == old(self).remaining(),
            final(self).total() == old(self).total(),
            final(self).frame_index() == old(self).frame_index(),
            final(self).priority() == old(self).priority(),
    {
        let mut r: Vec<LoadRequest> = Vec::new();
        std::mem::swap(&mut r, &mut self.outgoing);
        r
    }

    /// The request the loader threads should take first, `NON_EXISTENT_REQUEST_ID`
    /// when any will do.
    pub fn priority_request_id(&self) -> (r: u32)
        ensures
            r == self.priority(),
    {
        self.priority_request_id
    }

    /// The capacity left, in bytes.
    pub fn remaining_capacity(&self) -> (r: i64)
        ensures
            r == self.remaining(),
    {
        self.remaining_capacity
    }

    /// Whether results of the request `id` are awaited: it was sent and its results
    /// have not all been handled.
    pub fn expects_results(&self, id: u32) -> (r: bool)
        ensures
            r == self.pending().dom().contains(id),
    {
        self.pending_requests.expects_results(&id)
    }

    /// Stores a result that arrived from the loader until it is handled.
    pub fn receive_load_result(&mut self, load_result: LoadResult<F>)
        requires
            old(self).wf(),
            old(self).pending().dom().contains(result_req_id(load_result)),
            result_fits(load_result),
        ensures
            final(self).wf(),
            final(self).pending() == arrived(old(self).pending(), load_result),
            final(self).dir() == old(self).dir(),
            final(self).textures() == old(self).textures(),
            final(self).remaining() == old(self).remaining(),
            final(self).total() == old(self).total(),
            final(self).frame_index() == old(self).frame_index(),
            final(self).outgoing() == old(self).outgoing(),
            final(self).priority() == old(self).priority(),
    {
        let ghost lr = load_result;
        let _ = self.pending_requests.add_load_result(load_result);
        proof {
            let p = self.pending_requests.view();
            assert forall|id: u32, k: int| p.dom().contains(id) && 0 <= k < p[id].2.len() implies #[trigger] result_fits(
                p[id].2[k],
            ) by {
                if id == result_req_id(lr) && k == p[id].2.len() - 1 {
                    assert(p[id].2[k] == lr);
                } else if id == result_req_id(lr) {
                    assert(p[id].2[k] == old(self).pending()[id].2[k]);
                } else {
                    assert(p[id] == old(self).pending()[id]);
                }
            };
        }
    }
}

/// `x` clamped to the range of `i64`.
fn clamp_to_i64(x: i128) -> (r: i64)
    ensures
        r == clamp64(x as int),
{
    if x > i64::MAX as i128 {
        i64::MAX
    } else if x < i64::MIN as i128 {
        i64::MIN
    } else {
        x as i64
    }
}

impl<F> ImageCache<F> {
    /// Replaces the entry at `i` by `e`, which has the same request id.
    fn put_entry(&mut self, i: usize, e: CachedTexture<F>)
        requires
            i < old(self).textures().len(),
            e.req_id == old(self).textures()[i as int].req_id,
        ensures
            final(self).textures() == old(self).textures().update(i as int, e.state()),
            final(self).dir == old(self).dir,
            final(self).pending_requests == old(self).pending_requests,
            final(self).remaining_capacity == old(self).remaining_capacity,
            final(self).total_capacity == old(self).total_capacity,
            final(self).curr_est_size == old(self).curr_est_size,
            final(self).current_frame_idx == old(self).current_frame_idx,
            final(self).outgoing == old(self).outgoing,
            final(self).priority_request_id == old(self).priority_request_id,
    {
        let ghost t0 = self.texture_cache@;
        let _ = self.texture_cache.remove(i);
        self.texture_cache.insert(i, e);
        assert(self.texture_cache@ =~= t0.update(i as int, e));
        assert(self.textures() =~= texture_states(t0).update(i as int, e.state()));
    }

    /// Takes the entry at `i` out, leaving an empty entry with the same id.
    fn take_entry(&mut self, i: usize) -> (r: CachedTexture<F>)
        requires
            i < old(self).textures().len(),
        ensures
            r.state() == old(self).textures()[i as int],
            final(self).textures() == old(self).textures().update(
                i as int,
                fresh_texture(old(self).textures()[i as int].req_id, None),
            ),
            final(self).dir == old(self).dir,
            final(self).pending_requests == old(self).pending_requests,
            final(self).remaining_capacity == old(self).remaining_capacity,
            final(self).total_capacity == old(self).total_capacity,
            final(self).curr_est_size == old(self).curr_est_size,
            final(self).current_frame_idx == old(self).current_frame_idx,
            final(self).outgoing == old(self).outgoing,
            final(self).priority_request_id == old(self).priority_request_id,
    {
        let ghost t0 = self.texture_cache@;
        let e = self.texture_cache.remove(i);
        let id = e.req_id;
        self.texture_cache.insert(
            i,
            CachedTexture {
                req_id: id,
                needs_update: false,
                mod_time: None,
                fully_loaded: false,
                failed: false,
                frames: Vec::new(),
            },
        );
        assert(t0[i as int] == e);
        assert(self.textures() =~= texture_states(t0).update(i as int, fresh_texture(id, None)));
        e
    }

    /// Handles one load result: see `upload_step`.
    #[verifier::spinoff_prover]
    fn upload_to_texture(&mut self, load_result: LoadResult<F>) -> (r: Result<(), CacheError>)
        requires
            old(self).wf(),
            result_fits(load_result),
        ensures
            final(self).wf(),
            (final(self).state(), r) == upload_step(old(self).state(), load_result),
            final(self).dir() == old(self).dir(),
            final(self).frame_index() == old(self).frame_index(),
            final(self).total() == old(self).total(),
            final(self).outgoing() == old(self).outgoing(),
    {
        let ghost s0 = self.state();
        let ghost lr = load_result;
        match load_result {
            LoadResult::Start { req_id, mod_time } => {
                match self.pending_requests.cancelled(&req_id) {
                    Some(c) => {
                        if c {
                            return Ok(());
                        }
                    },
                    None => {
                        return Ok(());
                    },
                }
                match self.find_texture(req_id) {
                    Err(p) => {
                        let c = CachedTexture {
                            req_id,
                            needs_update: false,
                            mod_time,
                            fully_loaded: false,
                            failed: false,
                            frames: Vec::new(),
                        };
                        let ghost t0 = self.texture_cache@;
                        self.texture_cache.insert(p, c);
                        proof {
                            assert(c.state() == fresh_texture::<F>(req_id, mod_time));
                            assert(self.texture_cache@ =~= t0.insert(p as int, c));
                            assert(self.textures() =~= s0.textures.insert(p as int, c.state()));
                            assert(separates(s0.textures, req_id, p as int));
                            assert forall|a: int, b: int| 0 <= a < b < self.textures().len() implies #[trigger] self.textures()[a].req_id
                                < #[trigger] self.textures()[b].req_id by {
                                let t = self.textures();
                                if a < p && b < p {
                                    assert(t[a] == s0.textures[a] && t[b] == s0.textures[b]);
                                } else if a < p && b == p {
                                    assert(t[a] == s0.textures[a]);
                                } else if a < p {
                                    assert(t[a] == s0.textures[a] && t[b] == s0.textures[b - 1]);
                                } else if a == p {
                                    assert(t[b] == s0.textures[b - 1]);
                                } else {
                                    assert(t[a] == s0.textures[a - 1] && t[b] == s0.textures[b - 1]);
                                }
                            };
                            assert forall|k: int| 0 <= k < self.textures().len() implies #[trigger] frames_fit(
                                self.textures()[k].frames,
                            ) by {
                                if k < p {
                                    assert(self.textures()[k] == s0.textures[k]);
                                } else if k > p {
                                    assert(self.textures()[k] == s0.textures[k - 1]);
                                }
                            };
                        }
                    },
                    Ok(i) => {
                        let overwrite = match mod_time {
                            Some(cur) => match self.texture_cache[i].mod_time {
                                Some(ex) => ex != cur,
                                None => true,
                            },
                            None => true,
                        };
                        if overwrite {
                            assert(frames_fit(s0.textures[i as int].frames));
                            let old_size = get_anim_size_estimate(self.texture_cache[i].frames.as_slice());
                            let nf = self.texture_cache[i].frames.len();
                            let ghost n = nf as int;
                            assert(n == self.texture_cache[i as int].frames@.len());
                            assert(n * u32::MAX <= usize::MAX * u32::MAX) by (nonlinear_arith)
                                requires
                                    n <= usize::MAX,
                            ;
                            self.remaining_capacity = clamp_to_i64(
                                self.remaining_capacity as i128 + old_size,
                            );
                            let mut e = self.take_entry(i);
                            e.frames = Vec::new();
                            e.mod_time = mod_time;
                            self.put_entry(i, e);
                            proof {
                                assert(self.textures() =~= with_entry(
                                    s0.textures,
                                    req_id,
                                    TextureState {
                                        frames: Seq::empty(),
                                        mod_time,
                                        ..entry(s0.textures, req_id)
                                    },
                                ));
                                lemma_update_keeps_order(s0.textures, i as int, self.textures()[i as int]);
                            }
                        }
                    },
                }
                Ok(())
            },
            LoadResult::Frame { req_id, image, width, height, delay_nano, orientation } => {
                match self.pending_requests.cancelled(&req_id) {
                    Some(c) => {
                        if c {
                            return Ok(());
                        }
                    },
                    None => {
                        return Ok(());
                    },
                }
                match self.find_texture(req_id) {
                    Ok(i) => {
                        let size = size_estimate_wide_u32(width, height);
                        self.remaining_capacity = clamp_to_i64(
                            self.remaining_capacity as i128 - size,
                        );
                        let mut e = self.take_entry(i);
                        e.frames.push(
                            AnimationFrameTexture { image, width, height, delay_nano, orientation },
                        );
                        self.put_entry(i, e);
                        proof {
                            let f = AnimationFrameTexture { image, width, height, delay_nano, orientation };
                            assert(self.textures() =~= with_entry(
                                s0.textures,
                                req_id,
                                TextureState {
                                    frames: entry(s0.textures, req_id).frames.push(f),
                                    ..entry(s0.textures, req_id)
                                },
                            ));
                            lemma_update_keeps_order(s0.textures, i as int, self.textures()[i as int]);
                            assert(frames_fit(s0.textures[i as int].frames));
                            assert forall|k: int| 0 <= k < self.textures()[i as int].frames.len() implies #[trigger] frame_fits(
                                self.textures()[i as int].frames[k].width,
                                self.textures()[i as int].frames[k].height,
                                self.textures()[i as int].frames[k].delay_nano,
                            ) by {
                                if k < s0.textures[i as int].frames.len() {
                                    assert(self.textures()[i as int].frames[k] == s0.textures[i as int].frames[k]);
                                }
                            };
                            lemma_update_keeps_fit(s0.textures, i as int, self.textures()[i as int]);
                        }
                    },
                    Err(_) => {},
                }
                Ok(())
            },
            LoadResult::Done { req_id } => {
                match self.find_texture(req_id) {
                    Ok(i) => {
                        let mut e = self.take_entry(i);
                        e.fully_loaded = true;
                        self.put_entry(i, e);
                        proof {
                            assert(self.textures() =~= with_entry(
                                s0.textures,
                                req_id,
                                TextureState { fully_loaded: true, ..entry(s0.textures, req_id) },
                            ));
                            lemma_update_keeps_order(s0.textures, i as int, self.textures()[i as int]);
                            lemma_update_keeps_fit(s0.textures, i as int, self.textures()[i as int]);
                        }
                    },
                    Err(_) => {},
                }
                if self.priority_request_id == req_id {
                    self.priority_request_id = NON_EXISTENT_REQUEST_ID;
                }
                self.pending_requests.set_finished(&req_id);
                proof {
                    lemma_finished_keeps_fit(s0.pending, req_id);
                }
                Ok(())
            },
            LoadResult::Failed { req_id } => {
                match self.find_texture(req_id) {
                    Ok(i) => {
                        let mut e = self.take_entry(i);
                        e.fully_loaded = true;
                        e.failed = true;
                        self.put_entry(i, e);
                        proof {
                            assert(self.textures() =~= with_entry(
                                s0.textures,
                                req_id,
                                TextureState {
                                    fully_loaded: true,
                                    failed: true,
                                    ..entry(s0.textures, req_id)
                                },
                            ));
                            lemma_update_keeps_order(s0.textures, i as int, self.textures()[i as int]);
                            lemma_update_keeps_fit(s0.textures, i as int, self.textures()[i as int]);
                        }
                    },
                    Err(_) => {},
                }
                if self.priority_request_id == req_id {
                    self.priority_request_id = NON_EXISTENT_REQUEST_ID;
                }
                self.pending_requests.set_finished(&req_id);
                proof {
                    lemma_finished_keeps_fit(s0.pending, req_id);
                }
                Err(CacheError::FailedToLoadImage(req_id))
            },
        }
    }
}

impl<F> ImageCache<F> {
    /// Takes the results of `id` out and handles them all.
    fn take_and_upload(&mut self, id: u32) -> (r: bool)
        requires
            old(self).wf(),
        ensures
            final(self).wf(),
            (final(self).state(), r) == ({
                let t = taken(old(self).state(), id);
                upload_all(t.0, t.1)
            }),
            final(self).dir() == old(self).dir(),
            final(self).frame_index() == old(self).frame_index(),
            final(self).total() == old(self).total(),
            final(self).outgoing() == old(self).outgoing(),
    {
        let ghost s0 = self.state();
        let ghost t = taken(s0, id);
        let taken_results = self.pending_requests.take_results(id);
        let mut uploaded = false;
        match taken_results {
            Some(results) => {
                proof {
                    assert(self.state() == t.0);
                    assert(results@ == t.1);
                    assert(pending_fit(self.pending())) by {
                        let q = self.pending();
                        assert forall|x: u32, k: int| q.dom().contains(x) && 0 <= k < q[x].2.len() implies #[trigger] result_fits(
                            q[x].2[k],
                        ) by {
                            assert(s0.pending.dom().contains(x));
                            if x != id {
                                assert(q[x] == s0.pending[x]);
                            }
                        };
                    };
                    assert forall|k: int| 0 <= k < results@.len() implies #[trigger] result_fits(results@[k]) by {
                        assert(result_fits(s0.pending[id].2[k]));
                    };
                }
                let mut k: usize = 0;
                let n = results.len();
                let mut results = results;
                let ghost rs = results@;
                assert(results@ =~= rs.subrange(0, n as int));
                while k < n
                    invariant
                        n == rs.len(),
                        0 <= k <= n,
                        results@ == rs.subrange(k as int, n as int),
                        forall|j: int| 0 <= j < rs.len() ==> #[trigger] result_fits(rs[j]),
                        self.wf(),
                        (self.state(), uploaded) == upload_all(t.0, rs.take(k as int)),
                        self.dir() == old(self).dir(),
                        self.frame_index() == old(self).frame_index(),
                        self.total() == old(self).total(),
                        self.outgoing() == old(self).outgoing(),
                    decreases n - k,
                {
                    let r = results.remove(0);
                    proof {
                        assert(r == rs[k as int]);
                        assert(results@ =~= rs.subrange(k + 1, n as int));
                        assert(rs.take(k + 1).drop_last() =~= rs.take(k as int));
                        assert(rs.take(k + 1).last() == rs[k as int]);
                    }
                    let res = self.upload_to_texture(r);
                    if res.is_ok() {
                        uploaded = true;
                    }
                    k = k + 1;
                }
                proof {
                    assert(rs.take(n as int) =~= rs);
                }
            },
            None => {
                proof {
                    assert(self.state() == t.0);
                    assert(t.1 == Seq::<LoadResult<F>>::empty());
                }
            },
        }
        uploaded
    }
}

impl<F> ImageCache<F> {
    /// Handles the results that arrived, request by request, until a request with
    /// results is met. The requests are taken in an order that is not specified.
    pub fn process_prefetched(&mut self)
        requires
            old(self).wf(),
        ensures
            final(self).wf(),
            exists|ids: Seq<u32>|
                ids.no_duplicates() && ids.to_set() == old(self).pending().dom() && final(self).state()
                    == #[trigger] process_ids(old(self).state(), ids),
            final(self).dir() == old(self).dir(),
            final(self).frame_index() == old(self).frame_index(),
            final(self).total() == old(self).total(),
            final(self).outgoing() == old(self).outgoing(),
    {
        let ghost s0 = self.state();
        let ids = self.pending_requests.get_all_ids();
        let n = ids.len();
        let mut k: usize = 0;
        let mut done = false;
        assert(ids@.skip(0) =~= ids@);
        while k < n && !done
            invariant
                n == ids.len(),
                0 <= k <= n,
                self.wf(),
                done ==> self.state() == process_ids(s0, ids@),
                !done ==> process_ids(s0, ids@) == process_ids(self.state(), ids@.skip(k as int)),
                self.dir() == old(self).dir(),
                self.frame_index() == old(self).frame_index(),
                self.total() == old(self).total(),
                self.outgoing() == old(self).outgoing(),
            decreases n - k,
        {
            let ghost cur = self.state();
            proof {
                assert(ids@.skip(k as int)[0] == ids@[k as int]);
                assert(ids@.skip(k as int).drop_first() =~= ids@.skip(k + 1));
            }
            let any = self.take_and_upload(ids[k]);
            if any {
                done = true;
            }
            k = k + 1;
        }
        proof {
            if !done {
                assert(ids@.skip(n as int) =~= Seq::<u32>::empty());
            }
        }
    }
}

impl<F> ImageCache<F> {
    /// Considers a load request for the file `file_path` with id `req_id`: see
    /// `request_step`. Answers whether the request was sent.
    fn send_request_for_file(
        &mut self,
        file_path: String,
        req_id: u32,
        file_mod_time: Option<u64>,
        priority: bool,
    ) -> (r: bool)
        requires
            old(self).wf(),
        ensures
            final(self).wf(),
            exists|mid: CacheState<F>|
                #[trigger] before_request(old(self).state(), mid, priority) && (final(self).state(), r)
                    == request_step(mid, file_path, req_id, file_mod_time, priority),
            final(self).dir() == old(self).dir(),
            final(self).frame_index() == old(self).frame_index(),
            final(self).total() == old(self).total(),
    {
        let ghost s0 = self.state();
        if priority && self.pending_requests.len() >= MAX_PENDING_REQUESTS {
            self.process_prefetched();
        }
        let ghost mid = self.state();
        assert(before_request(s0, mid, priority));
        self.consider_request(file_path, req_id, file_mod_time, priority)
    }

    /// `request_step` on the current state.
    fn consider_request(
        &mut self,
        file_path: String,
        req_id: u32,
        file_mod_time: Option<u64>,
        priority: bool,
    ) -> (r: bool)
        requires
            old(self).wf(),
        ensures
            final(self).wf(),
            (final(self).state(), r) == request_step(old(self).state(), file_path, req_id, file_mod_time, priority),
            final(self).dir() == old(self).dir(),
            final(self).frame_index() == old(self).frame_index(),
            final(self).total() == old(self).total(),
    {
        if self.pending_requests.len() >= MAX_PENDING_REQUESTS {
            return false;
        }
        let go_on = self.check_entry(req_id, file_mod_time);
        if !go_on {
            return false;
        }
        if priority {
            self.priority_request_id = req_id;
        }
        if self.pending_requests.contains(&req_id) {
            return false;
        }
        let registered = LoadRequest { req_id, path: file_path.clone() };
        let request = LoadRequest { req_id, path: file_path };
        let ghost p0 = self.pending();
        self.pending_requests.add_request(registered);
        self.outgoing.push(request);
        proof {
            let q = self.pending();
            assert forall|x: u32, k: int| q.dom().contains(x) && 0 <= k < q[x].2.len() implies #[trigger] result_fits(
                q[x].2[k],
            ) by {
                if x != req_id {
                    assert(q[x] == p0[x]);
                }
            };
        }
        true
    }

    /// `entry_check` on the entries.
    fn check_entry(&mut self, req_id: u32, file_mod_time: Option<u64>) -> (r: bool)
        requires
            old(self).wf(),
        ensures
            final(self).wf(),
            (final(self).textures(), r) == entry_check(old(self).textures(), req_id, file_mod_time),
            final(self).dir() == old(self).dir(),
            final(self).pending() == old(self).pending(),
            final(self).remaining() == old(self).remaining(),
            final(self).priority() == old(self).priority(),
            final(self).outgoing() == old(self).outgoing(),
            final(self).frame_index() == old(self).frame_index(),
            final(self).total() == old(self).total(),
    {
        let ghost t0 = self.textures();
        match self.find_texture(req_id) {
            Ok(i) => {
                if !self.texture_cache[i].needs_update {
                    return false;
                }
                let mut e = self.take_entry(i);
                e.needs_update = false;
                let ex = e.mod_time;
                self.put_entry(i, e);
                proof {
                    lemma_update_keeps_order(t0, i as int, self.textures()[i as int]);
                    lemma_update_keeps_fit(t0, i as int, self.textures()[i as int]);
                    assert(self.textures() =~= with_entry(
                        t0,
                        req_id,
                        TextureState { needs_update: false, ..entry(t0, req_id) },
                    ));
                }
                match (ex, file_mod_time) {
                    (Some(existing), Some(new_time)) => {
                        if new_time == existing {
                            false
                        } else {
                            let ghost t1 = self.textures();
                            let _ = self.texture_cache.remove(i);
                            proof {
                                assert(self.textures() =~= t1.remove(i as int));
                                assert forall|a: int, b: int| 0 <= a < b < self.textures().len() implies #[trigger] self.textures()[a].req_id
                                    < #[trigger] self.textures()[b].req_id by {
                                    let ta = if a < i { a } else { a + 1 };
                                    let tb = if b < i { b } else { b + 1 };
                                    assert(self.textures()[a] == t1[ta]);
                                    assert(self.textures()[b] == t1[tb]);
                                };
                                assert forall|k: int| 0 <= k < self.textures().len() implies #[trigger] frames_fit(
                                    self.textures()[k].frames,
                                ) by {
                                    let tk = if k < i { k } else { k + 1 };
                                    assert(self.textures()[k] == t1[tk]);
                                };
                            }
                            true
                        }
                    },
                    _ => true,
                }
            },
            Err(_) => true,
        }
    }
}

impl<F> ImageCache<F> {
    /// Requests the image `index` of the folder, without priority, when the capacity
    /// left exceeds one image estimate. Answers whether a request was sent.
    pub fn prefetch_at_index(&mut self, index: usize) -> (r: bool)
        requires
            old(self).wf(),
            old(self).dir_safe(),
        ensures
            final(self).wf(),
            final(self).dir_safe(),
            final(self).frame_index() == old(self).frame_index(),
            final(self).total() == old(self).total(),
            old(self).remaining() > INITIAL_SIZE_ESTIMATE ==> filter_checked(old(self).dir(), final(self).dir()),
            old(self).remaining() <= INITIAL_SIZE_ESTIMATE ==> final(self).dir() == old(self).dir(),
            if old(self).remaining() > INITIAL_SIZE_ESTIMATE && filter_done(old(self).dir()) && index
                < final(self).dir().image_files().len() {
                let item = image_items(final(self).dir())[index as int];
                (final(self).state(), r) == request_step(
                    old(self).state(),
                    item.path,
                    item.request_id,
                    item.modified,
                    false,
                )
            } else {
                final(self).state() == old(self).state() && !r
            },
    {
        if self.remaining_capacity > self.curr_est_size {
            let params = match self.dir.image_by_index(index) {
                Some(desc) => Some((desc.path.clone(), desc.request_id, desc.modified)),
                None => None,
            };
            match params {
                Some((path, req_id, modified)) => {
                    let r = self.send_request_for_file(path, req_id, modified, false);
                    proof {
                        let mid = choose|mid: CacheState<F>|
                            #[trigger] before_request(old(self).state(), mid, false) && (self.state(), r)
                                == request_step(mid, path, req_id, modified, false);
                    }
                    r
                },
                None => false,
            }
        } else {
            false
        }
    }
}

impl<F> ImageCache<F> {
    /// Requests the images after the current one, without priority, so that their
    /// estimated sizes just fill the capacity left: see `prefetch_walk`. Nothing is
    /// requested while the folder is being filtered.
    pub fn prefetch_neighbors(&mut self)
        requires
            old(self).wf(),
            old(self).dir_safe(),
        ensures
            final(self).wf(),
            final(self).dir_safe(),
            filter_checked(old(self).dir(), final(self).dir()),
            final(self).frame_index() == old(self).frame_index(),
            final(self).total() == old(self).total(),
            final(self).state() == (if filter_done(old(self).dir()) {
                prefetch_walk(
                    old(self).state(),
                    image_items(final(self).dir()),
                    final(self).dir().curr_image() as int,
                    old(self).remaining() as int,
                )
            } else {
                old(self).state()
            }),
    {
        let ghost s0 = self.state();
        match self.dir.curr_img_index() {
            Some(start) => {
                let ghost d1 = self.dir();
                let ghost imgs = image_items(d1);
                let mut index = start;
                let mut est_cap = self.remaining_capacity;
                while est_cap > self.curr_est_size
                    invariant_except_break
                        prefetch_walk(s0, imgs, start as int, s0.remaining as int) == prefetch_walk(
                            self.state(),
                            imgs,
                            index as int,
                            est_cap as int,
                        ),
                    invariant
                        self.wf(),
                        self.dir_safe(),
                        self.dir().files() == d1.files(),
                        self.dir().image_files() == d1.image_files(),
                        self.dir().path_view() == d1.path_view(),
                        self.dir().curr_file() == d1.curr_file(),
                        self.dir().curr_image() == d1.curr_image(),
                        self.dir().last_req_id() == d1.last_req_id(),
                        self.dir().slots() == d1.slots(),
                        self.dir().filter_state() == d1.filter_state(),
                        !(d1.filter_state() is OutputReady),
                        self.frame_index() == old(self).frame_index(),
                        self.total() == old(self).total(),
                        imgs == image_items(d1),
                    ensures
                        self.state() == prefetch_walk(s0, imgs, start as int, s0.remaining as int),
                    decreases est_cap,
                {
                    if index == usize::MAX {
                        proof {
                            d1.lemma_lengths_fit();
                        }
                        break;
                    }
                    index = index + 1;
                    let ghost before = self.state();
                    let sent = self.prefetch_at_index(index);
                    if sent {
                        est_cap = est_cap - self.curr_est_size;
                    } else {
                        break;
                    }
                }
            },
            None => {},
        }
    }
}

impl<F> ImageCache<F> {
    /// Drops the entries that do not fit the capacity around the current image: see
    /// `evicted`. Nothing changes while the folder is being filtered.
    fn refresh_cache(&mut self)
        requires
            old(self).wf(),
            old(self).dir_safe(),
        ensures
            final(self).wf(),
            final(self).dir_safe(),
            filter_checked(old(self).dir(), final(self).dir()),
            final(self).frame_index() == old(self).frame_index(),
            final(self).total() == old(self).total(),
            if filter_done(old(self).dir()) {
                evicted(
                    old(self).state(),
                    final(self).state(),
                    old(self).total(),
                    final(self).dir().curr_image() as int,
                )
            } else {
                final(self).state() == old(self).state()
            },
    {
        let ghost s0 = self.state();
        match self.dir.curr_img_index() {
            Some(curr_index) => {
                let ghost t0 = self.textures();
                let mut sizes: Vec<i128> = Vec::new();
                let n = self.texture_cache.len();
                let mut i: usize = 0;
                while i < n
                    invariant
                        n == self.texture_cache.len(),
                        t0 == self.textures(),
                        t0.len() == n,
                        textures_fit(t0),
                        0 <= i <= n,
                        sizes@ == entry_sizes(t0).take(i as int),
                        forall|k: int| 0 <= k < i ==> 0 <= #[trigger] sizes@[k] <= usize::MAX * u32::MAX,
                    decreases n - i,
                {
                    assert(frames_fit(t0[i as int].frames));
                    let sz = get_anim_size_estimate(self.texture_cache[i].frames.as_slice());
                    let nf = self.texture_cache[i].frames.len();
                    assert(nf * u32::MAX <= usize::MAX * u32::MAX) by (nonlinear_arith)
                        requires
                            nf <= usize::MAX,
                    ;
                    sizes.push(sz);
                    proof {
                        assert(sizes@ =~= entry_sizes(t0).take(i + 1));
                    }
                    i = i + 1;
                }
                assert(sizes@ =~= entry_sizes(t0));
                let (keep, left) = retained_entries(&sizes, curr_index, self.total_capacity, self.curr_est_size);
                let ghost kept = Set::new(|j: int| 0 <= j < n && keep@[j]);
                let mut rest: Vec<CachedTexture<F>> = Vec::new();
                std::mem::swap(&mut rest, &mut self.texture_cache);
                let ghost rest0 = rest@;
                let mut out: Vec<CachedTexture<F>> = Vec::new();
                let mut j: usize = 0;
                assert(rest@ =~= rest0.subrange(0, n as int));
                while j < n
                    invariant
                        0 <= j <= n,
                        n == rest0.len(),
                        keep.len() == n,
                        kept == Set::new(|x: int| 0 <= x < n && keep@[x]),
                        texture_states(rest0) == t0,
                        rest@ == rest0.subrange(j as int, n as int),
                        texture_states(out@) == keep_positions(t0.take(j as int), kept),
                    decreases n - j,
                {
                    let e = rest.remove(0);
                    proof {
                        assert(e == rest0[j as int]);
                        assert(rest@ =~= rest0.subrange(j + 1, n as int));
                        assert(t0.take(j + 1).drop_last() =~= t0.take(j as int));
                        assert(t0.take(j + 1).last() == e.state());
                        assert(kept.contains(j as int) == keep@[j as int]);
                    }
                    if keep[j] {
                        out.push(e);
                        proof {
                            assert(texture_states(out@) =~= keep_positions(t0.take(j as int), kept).push(e.state()));
                        }
                    }
                    j = j + 1;
                }
                proof {
                    assert(t0.take(n as int) =~= t0);
                    lemma_keep_positions(t0, kept);
                }
                self.texture_cache = out;
                self.remaining_capacity = left;
                proof {
                    let order = choose|order: Seq<int>|
                        by_distance(order, sizes.len() as int, curr_index as int) && #[trigger] greedy_keep(
                            order,
                            sizes@,
                            self.total_capacity as int,
                            self.curr_est_size as int,
                        ) == (Set::new(|x: int| 0 <= x < sizes.len() && keep@[x]), left as int);
                    assert(by_distance(order, t0.len() as int, curr_index as int));
                    assert(Set::new(|x: int| 0 <= x < sizes.len() && keep@[x]) =~= kept);
                    let g = greedy_keep(
                        order,
                        entry_sizes(s0.textures),
                        self.total_capacity as int,
                        INITIAL_SIZE_ESTIMATE as int,
                    );
                    assert(g == (kept, left as int));
                    assert(self.textures() == keep_positions(s0.textures, g.0));
                    assert(self.state().remaining == g.1);
                    assert(evicted(s0, self.state(), self.total_capacity, curr_index as int));
                }
            },
            None => {},
        }
    }
}

/// The kept entries are entries of `t`, in the same order: still ordered by id, and
/// their frames still fit.
#[verifier::spinoff_prover]
proof fn lemma_keep_positions<F>(t: Seq<TextureState<F>>, kept: Set<int>)
    requires
        keys_sorted(t),
        textures_fit(t),
    ensures
        keys_sorted(keep_positions(t, kept)),
        textures_fit(keep_positions(t, kept)),
        forall|k: int| 0 <= k < keep_positions(t, kept).len() ==> exists|j: int|
            0 <= j < t.len() && #[trigger] keep_positions(t, kept)[k] == t[j],
    decreases t.len(),
{
    if t.len() > 0 {
        let d = t.drop_last();
        assert forall|a: int, b: int| 0 <= a < b < d.len() implies #[trigger] d[a].req_id < #[trigger] d[b].req_id by {
            assert(d[a] == t[a] && d[b] == t[b]);
        };
        assert forall|k: int| 0 <= k < d.len() implies #[trigger] frames_fit(d[k].frames) by {
            assert(d[k] == t[k]);
        };
        lemma_keep_positions(d, kept);
        let p = keep_positions(d, kept);
        let r = keep_positions(t, kept);
        assert forall|k: int| 0 <= k < p.len() implies exists|j: int| 0 <= j < t.len() && #[trigger] p[k] == t[j] by {
            let j = choose|j: int| 0 <= j < d.len() && #[trigger] p[k] == d[j];
            assert(p[k] == t[j]);
        };
        if kept.contains(t.len() - 1) {
            assert forall|a: int, b: int| 0 <= a < b < r.len() implies #[trigger] r[a].req_id < #[trigger] r[b].req_id by {
                if b == r.len() - 1 {
                    let j = choose|j: int| 0 <= j < d.len() && #[trigger] p[a] == d[j];
                    assert(r[a] == t[j]);
                    assert(r[b] == t[t.len() - 1]);
                } else {
                    assert(r[a] == p[a] && r[b] == p[b]);
                }
            };
            assert forall|k: int| 0 <= k < r.len() implies #[trigger] frames_fit(r[k].frames) by {
                if k < p.len() {
                    assert(r[k] == p[k]);
                } else {
                    assert(r[k] == t[t.len() - 1]);
                }
            };
            assert forall|k: int| 0 <= k < r.len() implies exists|j: int| 0 <= j < t.len() && #[trigger] r[k] == t[j] by {
                if k < p.len() {
                    assert(r[k] == p[k]);
                } else {
                    assert(r[k] == t[t.len() - 1]);
                }
            };
        }
    }
}

impl<F> ImageCache<F> {
    /// Takes the results of `id` out and handles them in order, stopping at the first
    /// error.
    fn take_and_upload_until_err(&mut self, id: u32) -> (r: Result<(), CacheError>)
        requires
            old(self).wf(),
        ensures
            final(self).wf(),
            (final(self).state(), r) == ({
                let t = taken(old(self).state(), id);
                upload_until_err(t.0, t.1)
            }),
            final(self).dir() == old(self).dir(),
            final(self).frame_index() == old(self).frame_index(),
            final(self).total() == old(self).total(),
    {
        let ghost s0 = self.state();
        let ghost t = taken(s0, id);
        let taken_results = self.pending_requests.take_results(id);
        match taken_results {
            Some(results) => {
                proof {
                    assert(self.state() == t.0);
                    assert(results@ == t.1);
                    assert(pending_fit(self.pending())) by {
                        let q = self.pending();
                        assert forall|x: u32, k: int| q.dom().contains(x) && 0 <= k < q[x].2.len() implies #[trigger] result_fits(
                            q[x].2[k],
                        ) by {
                            assert(s0.pending.dom().contains(x));
                            if x != id {
                                assert(q[x] == s0.pending[x]);
                            }
                        };
                    };
                    assert forall|k: int| 0 <= k < results@.len() implies #[trigger] result_fits(results@[k]) by {
                        assert(result_fits(s0.pending[id].2[k]));
                    };
                }
                let mut k: usize = 0;
                let n = results.len();
                let mut results = results;
                let ghost rs = results@;
                assert(results@ =~= rs.subrange(0, n as int));
                while k < n
                    invariant
                        n == rs.len(),
                        0 <= k <= n,
                        results@ == rs.subrange(k as int, n as int),
                        forall|j: int| 0 <= j < rs.len() ==> #[trigger] result_fits(rs[j]),
                        self.wf(),
                        (self.state(), Ok::<(), CacheError>(())) == upload_until_err(t.0, rs.take(k as int)),
                        t == taken(old(self).state(), id),
                        rs == t.1,
                        self.dir() == old(self).dir(),
                        self.frame_index() == old(self).frame_index(),
                        self.total() == old(self).total(),
                    decreases n - k,
                {
                    let r = results.remove(0);
                    proof {
                        assert(r == rs[k as int]);
                        assert(results@ =~= rs.subrange(k + 1, n as int));
                        assert(rs.take(k + 1).drop_last() =~= rs.take(k as int));
                        assert(rs.take(k + 1).last() == rs[k as int]);
                    }
                    let ghost before = self.state();
                    let res = self.upload_to_texture(r);
                    proof {
                        assert(upload_until_err(t.0, rs.take(k + 1)) == upload_step(before, rs[k as int]));
                        assert(upload_until_err(t.0, rs.take(k + 1)) == (self.state(), res));
                    }
                    match res {
                        Ok(()) => {},
                        Err(e) => {
                            proof {
                                lemma_until_err_stays(t.0, rs, k as int + 1);
                            }
                            return Err(e);
                        },
                    }
                    k = k + 1;
                }
                proof {
                    assert(rs.take(n as int) =~= rs);
                }
                Ok(())
            },
            None => {
                proof {
                    assert(self.state() == t.0);
                    assert(t.1 == Seq::<LoadResult<F>>::empty());
                }
                Ok(())
            },
        }
    }
}

/// Once an error stops the results, the later ones change nothing.
proof fn lemma_until_err_stays<F>(s: CacheState<F>, rs: Seq<LoadResult<F>>, k: int)
    requires
        0 <= k <= rs.len(),
        upload_until_err(s, rs.take(k)).1 is Err,
    ensures
        upload_until_err(s, rs) == upload_until_err(s, rs.take(k)),
    decreases rs.len() - k,
{
    if k < rs.len() {
        assert(rs.take(k + 1).drop_last() =~= rs.take(k));
        lemma_until_err_stays(s, rs, k + 1);
    } else {
        assert(rs.take(k) =~= rs);
    }
}

impl<F: Clone> ImageCache<F> {
    /// The frame `frame_id` of the current file, once its waiting results are handled:
    /// see `lookup_outcome`. Frame numbers out of range wrap around when every frame
    /// has arrived. An entry that holds no frame answers `WaitingOnLoader`.
    fn try_getting_requested_image(&mut self, frame_id: isize) -> (r: Result<
        AnimationFrameTexture<F>,
        CacheError,
    >)
        requires
            old(self).wf(),
        ensures
            final(self).wf(),
            final(self).dir() == old(self).dir(),
            final(self).total() == old(self).total(),
            r matches Ok(f) ==> f.delay_nano <= MAX_FRAME_DELAY_NANOS,
            match curr_item(old(self).dir()) {
                None => r == Err::<AnimationFrameTexture<F>, CacheError>(CacheError::NoCurrentFile)
                    && final(self).state() == old(self).state() && final(self).frame_index()
                    == old(self).frame_index(),
                Some(d) => {
                    let t = taken(old(self).state(), d.request_id);
                    let u = upload_until_err(t.0, t.1);
                    if u.1 is Err {
                        &&& final(self).state() == u.0
                        &&& r matches Err(e) && u.1 == Err::<(), CacheError>(e)
                        &&& final(self).frame_index() == old(self).frame_index()
                    } else {
                        lookup_outcome(
                            u.0,
                            final(self).state(),
                            d,
                            frame_id as int,
                            old(self).frame_index(),
                            final(self).frame_index(),
                            r,
                        )
                    }
                },
            },
    {
        let (path, req_id, modified) = match self.dir.curr_descriptor() {
            Some(desc) => (desc.path.clone(), desc.request_id, desc.modified),
            None => {
                return Err(CacheError::NoCurrentFile);
            },
        };
        let uploaded = self.take_and_upload_until_err(req_id);
        match uploaded {
            Err(e) => {
                return Err(e);
            },
            Ok(()) => {},
        }
        let ghost u0 = self.state();
        match self.find_texture(req_id) {
            Ok(i) => {
                if self.texture_cache[i].failed {
                    return Err(CacheError::FailedToLoadImage(req_id));
                }
                let unchanged = match modified {
                    Some(m) => match self.texture_cache[i].mod_time {
                        Some(mt) => mt == m,
                        None => false,
                    },
                    None => true,
                };
                let count = self.texture_cache[i].frames.len();
                let fully = self.texture_cache[i].fully_loaded;
                if unchanged && count > 0 && (fully || (frame_id >= 0 && (frame_id as usize) < count)) {
                    let w: usize = if frame_id < 0 {
                        let m: usize = ((-(frame_id + 1)) as usize) + 1;
                        proof {
                            lemma_wrap_negative(m as int, count as int);
                        }
                        if m % count == 0 {
                            0
                        } else {
                            count - (m % count)
                        }
                    } else {
                        (frame_id as usize) % count
                    };
                    if w < count {
                        self.current_frame_idx = w;
                        proof {
                            let e = self.textures()[i as int];
                            assert(frames_fit(e.frames));
                            assert(frame_fits(e.frames[w as int].width, e.frames[w as int].height, e.frames[w as int].delay_nano));
                        }
                        let f = self.texture_cache[i].frames[w].clone();
                        return Ok(f);
                    }
                }
                Err(CacheError::WaitingOnLoader)
            },
            Err(_) => {
                if self.pending_requests.contains(&req_id) {
                    self.priority_request_id = req_id;
                    return Err(CacheError::WaitingOnLoader);
                }
                let _ = self.send_request_for_file(path, req_id, modified, true);
                Err(CacheError::WaitingOnLoader)
            },
        }
    }
}

impl<F: Clone> ImageCache<F> {
    /// Loads the current file: see `load_tail`.
    fn load_current(&mut self, prev: Option<usize>, frame_id: Option<isize>) -> (r: Result<
        AnimationFrameTexture<F>,
        CacheError,
    >)
        requires
            old(self).wf(),
            old(self).dir_safe(),
        ensures
            final(self).wf(),
            final(self).dir_safe(),
            final(self).total() == old(self).total(),
            load_tail(old(self).full(), final(self).full(), old(self).total(), prev, frame_id, r),
            r matches Ok(f) ==> f.delay_nano <= MAX_FRAME_DELAY_NANOS,
    {
        let ghost v0 = self.full();
        let ci = self.dir.curr_img_index();
        let ghost d1 = self.dir();
        assert(filter_checked(v0.dir, d1));
        let curr = match ci {
            Some(img_index) => {
                let sr = self.dir.set_curr_img_index(img_index);
                let ghost d2 = self.dir();
                match sr {
                    Err(e) => {
                        let ghost e2 = e;
                        proof {
                            assert(index_set(d1, d2, img_index as int, Err::<(), DirError>(e2)));
                            assert(self.full() == with_dir(v0, d2));
                        }
                        return Err(CacheError::Directory(e));
                    },
                    Ok(()) => {},
                }
                proof {
                    assert(index_set(d1, d2, img_index as int, Ok::<(), DirError>(())));
                }
                Some(img_index)
            },
            None => None,
        };
        let ghost v1 = self.full();
        let requested = match frame_id {
            Some(f) => f,
            None => {
                let mut retval: isize = 0;
                match (prev, curr) {
                    (Some(p), Some(c)) => {
                        if p == c {
                            retval = self.current_frame_idx as isize;
                        }
                    },
                    _ => {},
                }
                retval
            },
        };
        assert(requested == requested_frame(prev, curr, frame_id, v0.frame_index));
        self.refresh_cache();
        let ghost v2 = self.full();
        let r = self.try_getting_requested_image(requested);
        proof {
            assert(refreshed(v1, v2, self.total()));
            assert(looked_up(v2, self.full(), requested, r));
            assert(refreshed_then_looked_up(v1, self.full(), self.total(), requested, r));
        }
        r
    }
}

impl<F: Clone> ImageCache<F> {
    /// Changes to the folder `dir_path`, whose listing is `listing`; another folder
    /// empties the cache first.
    fn change_directory(&mut self, dir_path: &str, listing: Result<Vec<ListedEntry>, String>) -> (r:
        Result<(), DirError>)
        requires
            old(self).wf(),
            old(self).dir().path_view() != dir_path@ ==> ids_fit(old(self).dir(), listing),
        ensures
            final(self).wf(),
            changed_directory(old(self).dir(), final(self).dir(), dir_path@, listing, r),
            final(self).state() == (if old(self).dir().path_view() == dir_path@ {
                old(self).state()
            } else {
                emptied(old(self).state(), old(self).total())
            }),
            final(self).frame_index() == old(self).frame_index(),
            final(self).total() == old(self).total(),
    {
        let current = self.dir.path().to_owned();
        let target = dir_path.to_owned();
        if current == target {
            let r = self.dir.change_directory(dir_path, listing);
            return r;
        }
        let ghost s0 = self.state();
        self.texture_cache = Vec::new();
        self.remaining_capacity = self.total_capacity;
        self.pending_requests.cancel_unfinished();
        let r = self.dir.change_directory(dir_path, listing);
        proof {
            assert(self.pending() =~= emptied(s0, self.total_capacity).pending);
            assert(self.textures() =~= Seq::<TextureState<F>>::empty());
            let q = self.pending();
            assert forall|x: u32, k: int| q.dom().contains(x) && 0 <= k < q[x].2.len() implies #[trigger] result_fits(
                q[x].2[k],
            ) by {
                assert(q[x].2 == s0.pending[x].2);
            };
        }
        r
    }

    /// Loads the file `file_name` of the folder `folder` (the first image of the folder
    /// when no name is given), whose listing is `listing`, and answers the frame
    /// `frame_id` of it (by default the current frame when the image stays the same,
    /// else the first): see `target_selected` and `load_tail`.
    pub fn load_specific(
        &mut self,
        folder: &str,
        file_name: Option<&str>,
        listing: Result<Vec<ListedEntry>, String>,
        frame_id: Option<isize>,
    ) -> (r: Result<AnimationFrameTexture<F>, CacheError>)
        requires
            old(self).wf(),
            old(self).dir_safe(),
            target_safe(
                old(self).dir(),
                folder@,
                name_view(file_name),
                listing,
            ),
        ensures
            final(self).wf(),
            final(self).dir_safe(),
            final(self).total() == old(self).total(),
            specific_outcome(
                old(self).full(),
                final(self).full(),
                old(self).total(),
                folder@,
                name_view(file_name),
                listing,
                frame_id,
                r,
            ),
            r matches Ok(f) ==> f.delay_nano <= MAX_FRAME_DELAY_NANOS,
    {
        let ghost v0 = self.full();
        let ghost nv = name_view(file_name);
        let prev_img_index = self.dir.curr_img_index();
        let ghost d0 = self.dir();
        let ghost va = self.full();
        assert(va == with_dir(v0, d0));
        let ghost lst = listing;
        let sel: Result<(), DirError> = match file_name {
            Some(name) => self.dir.change_directory_with_filename(folder, listing, name),
            None => {
                let r = self.change_directory(folder, listing);
                if r.is_ok() {
                    self.current_frame_idx = 0;
                }
                r
            },
        };
        let ghost v1 = self.full();
        match sel {
            Err(e) => {
                let ghost e2 = e;
                assert(target_selected(va, v1, self.total(), folder@, nv, lst, Err::<(), DirError>(e2)));
                let r = Err(CacheError::Directory(e));
                assert(filter_checked(old(self).dir(), d0));
                assert(with_dir(old(self).full(), d0) == va);
                assert(old(self).total() == self.total());
                assert(nv == name_view(file_name));
                assert(target_selected(
                    with_dir(old(self).full(), d0),
                    v1,
                    old(self).total(),
                    folder@,
                    name_view(file_name),
                    lst,
                    Err::<(), DirError>(e2),
                ));
                assert(self.full() == v1);
                let res = r;
                assert(res == Err::<AnimationFrameTexture<F>, CacheError>(CacheError::Directory(e2)));
                assert(filter_checked(old(self).full().dir, d0));
                assert(exists|d0: Directory, v1: CacheView<F>, r1: Result<(), DirError>|
                #[trigger] filter_checked(old(self).full().dir, d0) && #[trigger] target_selected(
                    with_dir(old(self).full(), d0),
                    v1,
                    old(self).total(),
                    folder@,
                    name_view(file_name),
                    lst,
                    r1,
                ) && match r1 {
                    Err(e) => self.full() == v1 && res == Err::<AnimationFrameTexture<F>, CacheError>(
                        CacheError::Directory(e),
                    ),
                    Ok(()) => load_tail(
                        v1,
                        self.full(),
                        old(self).total(),
                        if filter_done(old(self).full().dir) {
                            Some(d0.curr_image())
                        } else {
                            None
                        },
                        frame_id,
                        r,
                    ),
                });
                assert(specific_outcome(old(self).full(), self.full(), old(self).total(), folder@, name_view(file_name), lst, frame_id, res));
                res
            },
            Ok(()) => {
                assert(target_selected(va, v1, self.total(), folder@, nv, lst, Ok::<(), DirError>(())));
                let r = self.load_current(prev_img_index, frame_id);
                assert(filter_checked(old(self).dir(), d0));
                assert(target_selected(
                    with_dir(old(self).full(), d0),
                    v1,
                    old(self).total(),
                    folder@,
                    name_view(file_name),
                    listing,
                    Ok::<(), DirError>(()),
                ));
                assert(load_tail(
                    v1,
                    self.full(),
                    old(self).total(),
                    if filter_done(old(self).dir()) {
                        Some(d0.curr_image())
                    } else {
                        None
                    },
                    frame_id,
                    r,
                ));
                let res = r;
                assert(filter_checked(old(self).full().dir, d0));
                assert(exists|d0: Directory, v1: CacheView<F>, r1: Result<(), DirError>|
                #[trigger] filter_checked(old(self).full().dir, d0) && #[trigger] target_selected(
                    with_dir(old(self).full(), d0),
                    v1,
                    old(self).total(),
                    folder@,
                    name_view(file_name),
                    lst,
                    r1,
                ) && match r1 {
                    Err(e) => self.full() == v1 && res == Err::<AnimationFrameTexture<F>, CacheError>(
                        CacheError::Directory(e),
                    ),
                    Ok(()) => load_tail(
                        v1,
                        self.full(),
                        old(self).total(),
                        if filter_done(old(self).full().dir) {
                            Some(d0.curr_image())
                        } else {
                            None
                        },
                        frame_id,
                        r,
                    ),
                });
                assert(specific_outcome(old(self).full(), self.full(), old(self).total(), folder@, name_view(file_name), lst, frame_id, res));
                res
            },
        }
    }
}

impl<F> ImageCache<F> {
    /// Reads the folder again from `listing`, keeping the current file where it
    /// remains; every cached entry is then checked against its file before reuse.
    #[verifier::spinoff_prover]
    pub fn update_directory(&mut self, listing: Result<Vec<ListedEntry>, String>) -> (r: Result<
        (),
        CacheError,
    >)
        requires
            old(self).wf(),
            ids_fit(old(self).dir(), listing),
        ensures
            final(self).wf(),
            final(self).dir().path_view() == old(self).dir().path_view(),
            exists|rd: Result<(), DirError>|
                #[trigger] directory_updated(old(self).dir(), final(self).dir(), listing, rd) && match rd {
                    Ok(()) => r is Ok && final(self).state() == CacheState {
                        textures: marked_for_update(old(self).textures()),
                        ..old(self).state()
                    },
                    Err(e) => r == Err::<(), CacheError>(CacheError::Directory(e)) && final(self).state()
                        == old(self).state(),
                },
            final(self).frame_index() == old(self).frame_index(),
            final(self).total() == old(self).total(),
    {
        let ghost lst = listing;
        let rd = self.dir.update_directory(listing);
        match rd {
            Err(e) => {
                let ghost e2 = e;
                assert(directory_updated(old(self).dir(), self.dir(), lst, Err::<(), DirError>(e2)));
                return Err(CacheError::Directory(e));
            },
            Ok(()) => {},
        }
        assert(directory_updated(old(self).dir(), self.dir(), lst, Ok::<(), DirError>(())));
        let ghost t0 = self.textures();
        let ghost s1 = self.state();
        let ghost d1 = self.dir();
        let n = self.texture_cache.len();
        let mut i: usize = 0;
        while i < n
            invariant
                n == self.texture_cache.len(),
                0 <= i <= n,
                t0.len() == n,
                self.wf(),
                keys_sorted(t0),
                textures_fit(t0),
                self.textures() == marked_for_update(t0.take(i as int)) + t0.skip(i as int),
                self.dir() == d1,
                self.pending() == s1.pending,
                self.remaining() == s1.remaining,
                self.priority() == s1.priority,
                self.outgoing() == s1.outgoing,
                self.frame_index() == old(self).frame_index(),
                self.total() == old(self).total(),
            decreases n - i,
        {
            let ghost before = self.textures();
            assert(frames_fit(before[i as int].frames));
            let mut e = self.take_entry(i);
            e.needs_update = true;
            self.put_entry(i, e);
            proof {
                lemma_update_keeps_order(before, i as int, self.textures()[i as int]);
                lemma_update_keeps_fit(before, i as int, self.textures()[i as int]);
                assert(self.textures() =~= marked_for_update(t0.take(i + 1)) + t0.skip(i + 1));
            }
            i = i + 1;
        }
        proof {
            assert(self.textures() =~= marked_for_update(t0));
        }
        Ok(())
    }

    /// The image index of the current file, `None` while the folder is being
    /// filtered.
    pub fn current_file_index(&mut self) -> (r: Option<usize>)
        requires
            old(self).wf(),
            old(self).dir_safe(),
        ensures
            final(self).wf(),
            final(self).dir_safe(),
            filter_checked(old(self).dir(), final(self).dir()),
            r == checked_index(old(self).dir(), final(self).dir()),
            final(self).state() == old(self).state(),
            final(self).frame_index() == old(self).frame_index(),
            final(self).total() == old(self).total(),
    {
        self.dir.curr_img_index()
    }

    /// The number of images in the folder, `None` while it is being filtered.
    pub fn current_dir_len(&mut self) -> (r: Option<usize>)
        requires
            old(self).wf(),
            old(self).dir_safe(),
        ensures
            final(self).wf(),
            final(self).dir_safe(),
            filter_checked(old(self).dir(), final(self).dir()),
            r == (if filter_done(old(self).dir()) {
                Some(final(self).dir().image_files().len() as usize)
            } else {
                None
            }),
            final(self).state() == old(self).state(),
            final(self).frame_index() == old(self).frame_index(),
            final(self).total() == old(self).total(),
    {
        self.dir.image_count()
    }

    /// Whether the current index is a file of the folder.
    pub fn has_current_file(&self) -> (r: bool)
        ensures
            r == (curr_item(self.dir()) is Some),
    {
        self.dir.curr_descriptor().is_some()
    }

    /// The current frame of the current file.
    pub fn current_frame_index(&self) -> (r: usize)
        ensures
            r == self.frame_index(),
    {
        self.current_frame_idx
    }

    /// Whether the current file is loaded completely and is a single frame.
    pub fn loaded_still_image(&self) -> (r: bool)
        requires
            self.wf(),
        ensures
            r == (match curr_item(self.dir()) {
                Some(d) => has_key(self.textures(), d.request_id) && entry(
                    self.textures(),
                    d.request_id,
                ).fully_loaded && entry(self.textures(), d.request_id).frames.len() == 1,
                None => false,
            }),
    {
        match self.dir.curr_descriptor() {
            Some(desc) => match self.find_texture(desc.request_id) {
                Ok(i) => self.texture_cache[i].fully_loaded && self.texture_cache[i].frames.len() == 1,
                Err(_) => false,
            },
            None => false,
        }
    }

    /// The worker's side of the folder filter: sorts a waiting listing into images and
    /// other files.
    pub fn run_pending_filter(&mut self)
        requires
            old(self).wf(),
        ensures
            final(self).wf(),
            final(self).dir().path_view() == old(self).dir().path_view(),
            final(self).dir().files() == old(self).dir().files(),
            final(self).dir().image_files() == old(self).dir().image_files(),
            final(self).dir().slots() == old(self).dir().slots(),
            final(self).dir().curr_file() == old(self).dir().curr_file(),
            final(self).dir().curr_image() == old(self).dir().curr_image(),
            final(self).dir().last_req_id() == old(self).dir().last_req_id(),
            match old(self).dir().filter_state() {
                ActionState::InputGiven(inp) => final(self).dir().filter_state() matches ActionState::OutputReady(
                    out,
                ) && out@ == supported_indices(inp@),
                _ => final(self).dir().filter_state() == old(self).dir().filter_state(),
            },
            final(self).state() == old(self).state(),
            final(self).frame_index() == old(self).frame_index(),
            final(self).total() == old(self).total(),
    {
        self.dir.run_pending_filter();
    }
}

impl<F: Clone> ImageCache<F> {
    /// Loads the image `index` of the folder and answers the frame `frame_id` of it
    /// (by default as `load_specific` chooses), with the image's path.
    /// `WaitingOnDirFilter` while the folder is being filtered or past the images.
    pub fn load_at_index(&mut self, index: usize, frame_id: Option<isize>) -> (r: Result<
        (AnimationFrameTexture<F>, String),
        CacheError,
    >)
        requires
            old(self).wf(),
            old(self).dir_safe(),
        ensures
            final(self).wf(),
            final(self).dir_safe(),
            final(self).total() == old(self).total(),
            index_outcome(old(self).full(), final(self).full(), old(self).total(), index, frame_id, r),
            r matches Ok(p) ==> p.0.delay_nano <= MAX_FRAME_DELAY_NANOS,
    {
        let ghost v0 = self.full();
        let prev = self.dir.curr_img_index();
        let ghost d0 = self.dir();
        if prev.is_none() {
            let res = Err(CacheError::WaitingOnDirFilter);
            assert(filter_checked(old(self).full().dir, d0));
            assert(exists|d0: Directory|
                #[trigger] filter_checked(old(self).full().dir, d0) && if filter_done(old(self).full().dir) && index
                    < d0.image_files().len() {
                    let path = d0.files()[d0.image_files()[index as int] as int].path@;
                    exists|d2: Directory, r0: Result<AnimationFrameTexture<F>, CacheError>|
                        #[trigger] moved_to(d0, d2, d0.image_files()[index as int] as int, index as int)
                            && load_tail(with_dir(old(self).full(), d2), self.full(), old(self).total(), Some(d0.curr_image()), frame_id, r0)
                            && #[trigger] with_path(r0, path, res)
                } else {
                    self.full() == with_dir(old(self).full(), d0) && res == Err::<
                        (AnimationFrameTexture<F>, String),
                        CacheError,
                    >(CacheError::WaitingOnDirFilter)
                });
            assert(index_outcome(old(self).full(), self.full(), old(self).total(), index, frame_id, res));
            return res;
        }
        let found = match self.dir.image_by_index(index) {
            Some(desc) => Some(desc.path.clone()),
            None => None,
        };
        let ghost d1 = self.dir();
        assert(filter_checked(old(self).dir(), d1));
        let path = match found {
            Some(p) => p,
            None => {
                let res = Err(CacheError::WaitingOnDirFilter);
                assert(filter_checked(old(self).full().dir, d1));
                assert(exists|d1: Directory|
                #[trigger] filter_checked(old(self).full().dir, d1) && if filter_done(old(self).full().dir) && index
                    < d1.image_files().len() {
                    let path = d1.files()[d1.image_files()[index as int] as int].path@;
                    exists|d2: Directory, r0: Result<AnimationFrameTexture<F>, CacheError>|
                        #[trigger] moved_to(d1, d2, d1.image_files()[index as int] as int, index as int)
                            && load_tail(with_dir(old(self).full(), d2), self.full(), old(self).total(), Some(d1.curr_image()), frame_id, r0)
                            && #[trigger] with_path(r0, path, res)
                } else {
                    self.full() == with_dir(old(self).full(), d1) && res == Err::<
                        (AnimationFrameTexture<F>, String),
                        CacheError,
                    >(CacheError::WaitingOnDirFilter)
                });
                assert(index_outcome(old(self).full(), self.full(), old(self).total(), index, frame_id, res));
                return res;
            },
        };
        proof {
            d1.lemma_images_in_range();
        }
        let sr = self.dir.set_curr_img_index(index);
        let ghost d2 = self.dir();
        proof {
            let mid = choose|mid: Directory|
                #[trigger] filter_checked(d1, mid) && if !filter_done(d1) {
                    (sr matches Err(DirError::WaitingOnFolderFilter)) && same_state(mid, d2)
                } else if 0 <= index < mid.image_files().len() && mid.image_files()[index as int]
                    < mid.files().len() {
                    sr is Ok && moved_to(mid, d2, mid.image_files()[index as int] as int, index as int)
                } else {
                    (sr matches Err(DirError::Other(m)) && m@ == "Could not find image index"@) && same_state(mid, d2)
                };
            assert(d1.image_files()[index as int] < d1.files().len());
            assert(moved_to(d1, d2, d1.image_files()[index as int] as int, index as int));
        }
        assert(sr is Ok);
        let ghost pv = path@;
        let r0 = self.load_current(prev, frame_id);
        let ghost r0g = r0;
        let res = match r0 {
            Ok(f) => Ok((f, path)),
            Err(e) => Err(e),
        };
        assert(with_path(r0g, pv, res));
        assert(load_tail(with_dir(old(self).full(), d2), self.full(), old(self).total(), Some(d1.curr_image()), frame_id, r0g));
        assert(filter_checked(old(self).full().dir, d1));
        assert(exists|d1: Directory|
                #[trigger] filter_checked(old(self).full().dir, d1) && if filter_done(old(self).full().dir) && index
                    < d1.image_files().len() {
                    let path = d1.files()[d1.image_files()[index as int] as int].path@;
                    exists|d2: Directory, r0: Result<AnimationFrameTexture<F>, CacheError>|
                        #[trigger] moved_to(d1, d2, d1.image_files()[index as int] as int, index as int)
                            && load_tail(with_dir(old(self).full(), d2), self.full(), old(self).total(), Some(d1.curr_image()), frame_id, r0)
                            && #[trigger] with_path(r0, path, res)
                } else {
                    self.full() == with_dir(old(self).full(), d1) && res == Err::<
                        (AnimationFrameTexture<F>, String),
                        CacheError,
                    >(CacheError::WaitingOnDirFilter)
                });
        assert(index_outcome(old(self).full(), self.full(), old(self).total(), index, frame_id, res));
        res
    }
}

impl<F: Clone> ImageCache<F> {
    /// Moves by `file_jump_count` images (wrapping around) and loads the image from its
    /// first frame, or, for a jump of zero, moves by `frame_jump_count` frames within the
    /// current image. Answers the frame with the path of its file.
    /// - zero: the frame `current frame + frame_jump_count` is looked up;
    /// - one image: the folder steps to the next or previous image (see `jumped`);
    /// - more: once the folder is filtered and holds images, the image index moves by the
    ///   jump modulo the number of images; otherwise `NoImageToJump`.
    pub fn load_jump(&mut self, file_jump_count: i32, frame_jump_count: isize) -> (r: Result<
        (AnimationFrameTexture<F>, String),
        CacheError,
    >)
        requires
            old(self).wf(),
            old(self).dir_safe(),
            file_jump_count == 1 || file_jump_count == -1 ==> curr_item(old(self).dir()) is Some,
        ensures
            final(self).wf(),
            final(self).dir_safe(),
            final(self).total() == old(self).total(),
            jump_outcome(old(self).full(), final(self).full(), old(self).total(), file_jump_count, frame_jump_count, r),
            r matches Ok(p) ==> p.0.delay_nano <= MAX_FRAME_DELAY_NANOS,
    {
        if file_jump_count == 0 {
            let target = (self.current_frame_idx as isize).wrapping_add(frame_jump_count);
            let r0 = self.try_getting_requested_image(target);
            let ghost r0g = r0;
            let path = match self.dir.curr_descriptor() {
                Some(d) => d.path.clone(),
                None => String::new(),
            };
            let res = match r0 {
                Ok(f) => Ok((f, path)),
                Err(e) => Err(e),
            };
            assert(looked_up(old(self).full(), self.full(), target, r0g));
            assert(with_path(r0g, curr_path(self.dir()), res));
            assert(target == (old(self).frame_index() as isize).wrapping_add(frame_jump_count));
            assert(jump_outcome(old(self).full(), self.full(), old(self).total(), file_jump_count, frame_jump_count, res));
            return res;
        }
        self.current_frame_idx = 0;
        if file_jump_count == 1 || file_jump_count == -1 {
            let ghost d0 = self.dir();
            proof {
                lemma_next_image_is_image(d0.files(), d0.curr_file() as int);
                lemma_prev_image_in_range(d0.files(), d0.curr_file() as int);
            }
            if file_jump_count > 0 {
                self.dir.jump_to_next();
            } else {
                self.dir.jump_to_prev();
            }
            let ghost d1 = self.dir();
            assert(jumped(d0, d1, file_jump_count as int));
            proof {
                let target = if file_jump_count > 0 {
                    next_image(d0.files(), d0.curr_file() as int)
                } else {
                    prev_image(d0.files(), d0.curr_file() as int)
                };
                if let Some(i) = target {
                    d0.lemma_image_no_check_panic(i);
                }
            }
            let target_path = match self.dir.curr_descriptor() {
                Some(d) => d.path.clone(),
                None => String::new(),
            };
            let ghost v1 = self.full();
            let prev = self.dir.curr_img_index();
            let ghost d2 = self.dir();
            let r0 = self.load_current(prev, None);
            let ghost r0g = r0;
            let res = match r0 {
                Ok(f) => Ok((f, target_path)),
                Err(e) => Err(e),
            };
            proof {
                assert(filter_checked(d1, d2));
                assert(v1 == at_frame(with_dir(old(self).full(), d1), 0));
                assert(loaded_from_start(with_dir(old(self).full(), d1), self.full(), old(self).total(), r0g));
                assert(with_path(r0g, curr_path(d1), res));
                assert(jumped(old(self).full().dir, d1, file_jump_count as int));
                assert(exists|dx: Directory, rx: Result<AnimationFrameTexture<F>, CacheError>|
                    #[trigger] jumped(old(self).full().dir, dx, file_jump_count as int) && #[trigger] loaded_from_start(
                        with_dir(old(self).full(), dx),
                        self.full(),
                        old(self).total(),
                        rx,
                    ) && with_path(rx, curr_path(dx), res));
                assert(jump_outcome(old(self).full(), self.full(), old(self).total(), file_jump_count, frame_jump_count, res));
            }
            return res;
        }
        let curr = self.dir.curr_img_index();
        let ghost da = self.dir();
        let count = self.dir.image_count();
        let ghost d1 = self.dir();
        assert(filter_checked(old(self).dir(), d1));
        assert(filter_done(old(self).dir()) ==> filter_done(da));
        proof {
            d1.lemma_lengths_fit();
        }
        assert(filter_done(old(self).dir()) ==> curr == Some(d1.curr_image()) && count == Some(
            d1.image_files().len() as usize,
        ));
        let (c, n) = match (curr, count) {
            (Some(c), Some(n)) => {
                if n == 0 {
                    assert(self.full() == at_frame(with_dir(old(self).full(), d1), 0));
                    assert(!(filter_done(old(self).dir()) && d1.image_files().len() > 0));
                    let res = Err(CacheError::NoImageToJump);
                    assert(filter_checked(old(self).full().dir, d1));
                    assert(exists|dx: Directory|
                #[trigger] filter_checked(old(self).full().dir, dx) && if filter_done(old(self).full().dir)
                    && dx.image_files().len() > 0 {
                    let t = (dx.curr_image() + file_jump_count) % (dx.image_files().len() as int);
                    exists|d2: Directory, r0: Result<AnimationFrameTexture<F>, CacheError>|
                        #[trigger] moved_to(dx, d2, dx.image_files()[t] as int, t) && #[trigger] load_tail(
                            at_frame(with_dir(old(self).full(), d2), 0),
                            self.full(),
                            old(self).total(),
                            Some(dx.curr_image()),
                            None,
                            r0,
                        ) && with_path(r0, dx.files()[dx.image_files()[t] as int].path@, res)
                } else {
                    self.full() == at_frame(with_dir(old(self).full(), dx), 0) && res == Err::<
                        (AnimationFrameTexture<F>, String),
                        CacheError,
                    >(CacheError::NoImageToJump)
                });
                    assert(jump_outcome(old(self).full(), self.full(), old(self).total(), file_jump_count, frame_jump_count, res));
                    return res;
                }
                (c, n)
            },
            _ => {
                assert(self.full() == at_frame(with_dir(old(self).full(), d1), 0));
                assert(!filter_done(old(self).dir()));
                let res = Err(CacheError::NoImageToJump);
                assert(filter_checked(old(self).full().dir, d1));
                assert(exists|dx: Directory|
                #[trigger] filter_checked(old(self).full().dir, dx) && if filter_done(old(self).full().dir)
                    && dx.image_files().len() > 0 {
                    let t = (dx.curr_image() + file_jump_count) % (dx.image_files().len() as int);
                    exists|d2: Directory, r0: Result<AnimationFrameTexture<F>, CacheError>|
                        #[trigger] moved_to(dx, d2, dx.image_files()[t] as int, t) && #[trigger] load_tail(
                            at_frame(with_dir(old(self).full(), d2), 0),
                            self.full(),
                            old(self).total(),
                            Some(dx.curr_image()),
                            None,
                            r0,
                        ) && with_path(r0, dx.files()[dx.image_files()[t] as int].path@, res)
                } else {
                    self.full() == at_frame(with_dir(old(self).full(), dx), 0) && res == Err::<
                        (AnimationFrameTexture<F>, String),
                        CacheError,
                    >(CacheError::NoImageToJump)
                });
                assert(jump_outcome(old(self).full(), self.full(), old(self).total(), file_jump_count, frame_jump_count, res));
                return res;
            },
        };
        let x: i128 = c as i128 + file_jump_count as i128;
        let n128: i128 = n as i128;
        let t128: i128 = if x >= 0 {
            ((x as u128) % (n as u128)) as i128
        } else {
            let m: u128 = ((-x) as u128) % (n as u128);
            if m == 0 {
                0
            } else {
                n128 - (m as i128)
            }
        };
        proof {
            let xi = c + file_jump_count;
            let ni = n as int;
            assert(xi == x);
            if x >= 0 {
                assert(t128 == xi % ni);
            } else {
                let y = -xi;
                let m = y % ni;
                vstd::arithmetic::div_mod::lemma_fundamental_div_mod(y, ni);
                let q = y / ni;
                assert(y == ni * q + m);
                if m == 0 {
                    assert(xi == (-q) * ni + 0) by (nonlinear_arith)
                        requires
                            y == ni * q + m,
                            m == 0,
                            xi == -y,
                    ;
                    vstd::arithmetic::div_mod::lemma_fundamental_div_mod_converse_mod(xi, ni, -q, 0);
                } else {
                    assert(xi == (-q - 1) * ni + (ni - m)) by (nonlinear_arith)
                        requires
                            y == ni * q + m,
                            xi == -y,
                    ;
                    vstd::arithmetic::div_mod::lemma_fundamental_div_mod_converse_mod(xi, ni, -q - 1, ni - m);
                }
                assert(t128 == xi % ni);
            }
        }
        let target = t128 as usize;
        assert(target == (d1.curr_image() + file_jump_count) % (d1.image_files().len() as int));
        let path = match self.dir.image_by_index(target) {
            Some(d) => d.path.clone(),
            None => String::new(),
        };
        let ghost d2 = self.dir();
        proof {
            d2.lemma_images_in_range();
        }
        let sr = self.dir.set_curr_img_index(target);
        let ghost d3 = self.dir();
        proof {
            let mid = choose|mid: Directory|
                #[trigger] filter_checked(d2, mid) && if !filter_done(d2) {
                    (sr matches Err(DirError::WaitingOnFolderFilter)) && same_state(mid, d3)
                } else if 0 <= target < mid.image_files().len() && mid.image_files()[target as int]
                    < mid.files().len() {
                    sr is Ok && moved_to(mid, d3, mid.image_files()[target as int] as int, target as int)
                } else {
                    (sr matches Err(DirError::Other(m)) && m@ == "Could not find image index"@) && same_state(mid, d3)
                };
            assert(moved_to(d1, d3, d1.image_files()[target as int] as int, target as int));
        }
        let ghost pv = path@;
        let r0 = self.load_current(Some(c), None);
        let ghost r0g = r0;
        let res = match r0 {
            Ok(f) => Ok((f, path)),
            Err(e) => Err(e),
        };
        proof {
            assert(with_path(r0g, pv, res));
            assert(load_tail(
                at_frame(with_dir(old(self).full(), d3), 0),
                self.full(),
                old(self).total(),
                Some(d1.curr_image()),
                None,
                r0g,
            ));
            assert(filter_checked(old(self).full().dir, d1));
            assert(moved_to(d1, d3, d1.image_files()[target as int] as int, target as int));
            assert(exists|dx: Directory|
                #[trigger] filter_checked(old(self).full().dir, dx) && if filter_done(old(self).full().dir)
                    && dx.image_files().len() > 0 {
                    let t = (dx.curr_image() + file_jump_count) % (dx.image_files().len() as int);
                    exists|d2: Directory, r0: Result<AnimationFrameTexture<F>, CacheError>|
                        #[trigger] moved_to(dx, d2, dx.image_files()[t] as int, t) && #[trigger] load_tail(
                            at_frame(with_dir(old(self).full(), d2), 0),
                            self.full(),
                            old(self).total(),
                            Some(dx.curr_image()),
                            None,
                            r0,
                        ) && with_path(r0, dx.files()[dx.image_files()[t] as int].path@, res)
                } else {
                    self.full() == at_frame(with_dir(old(self).full(), dx), 0) && res == Err::<
                        (AnimationFrameTexture<F>, String),
                        CacheError,
                    >(CacheError::NoImageToJump)
                });
            assert(jump_outcome(old(self).full(), self.full(), old(self).total(), file_jump_count, frame_jump_count, res));
        }
        res
    }

    /// Moves to the next image and loads it: `load_jump(1, 0)`.
    pub fn load_next(&mut self) -> (r: Result<(AnimationFrameTexture<F>, String), CacheError>)
        requires
            old(self).wf(),
            old(self).dir_safe(),
            curr_item(old(self).dir()) is Some,
        ensures
            final(self).wf(),
            final(self).dir_safe(),
            final(self).total() == old(self).total(),
            exists|d1: Directory, r0: Result<AnimationFrameTexture<F>, CacheError>|
                #[trigger] jumped(old(self).dir(), d1, 1) && #[trigger] loaded_from_start(
                    with_dir(old(self).full(), d1),
                    final(self).full(),
                    old(self).total(),
                    r0,
                ) && with_path(r0, curr_path(d1), r),
    {
        self.load_jump(1, 0)
    }

    /// Moves to the previous image and loads it: `load_jump(-1, 0)`.
    pub fn load_prev(&mut self) -> (r: Result<(AnimationFrameTexture<F>, String), CacheError>)
        requires
            old(self).wf(),
            old(self).dir_safe(),
            curr_item(old(self).dir()) is Some,
        ensures
            final(self).wf(),
            final(self).dir_safe(),
            final(self).total() == old(self).total(),
            exists|d1: Directory, r0: Result<AnimationFrameTexture<F>, CacheError>|
                #[trigger] jumped(old(self).dir(), d1, -1) && #[trigger] loaded_from_start(
                    with_dir(old(self).full(), d1),
                    final(self).full(),
                    old(self).total(),
                    r0,
                ) && with_path(r0, curr_path(d1), r),
    {
        self.load_jump(-1, 0)
    }
}

impl<F> ImageCache<F> {
    /// Whether loading the file `name` of the folder `folder`, whose listing is
    /// `listing`, can go ahead: see `target_safe`.
    pub fn target_is_safe(
        &self,
        folder: &str,
        name: Option<&str>,
        listing: &Result<Vec<ListedEntry>, String>,
    ) -> (r: bool)
        requires
            self.wf(),
        ensures
            r == target_safe(self.dir(), folder@, name_view(name), *listing),
    {
        let current = self.dir.path().to_owned();
        let target = folder.to_owned();
        if current != target {
            self.dir.listing_fits(listing)
        } else {
            match name {
                Some(n) => !self.dir.select_would_panic(n),
                None => true,
            }
        }
    }
}

impl<F> ImageCache<F> {
    /// The folder is known to hold no image: its filter has finished with none.
    pub open spec fn is_known_empty(&self) -> bool {
        filter_done(self.dir()) && images_after_check(self.dir()).len() == 0
    }

    /// Whether the folder is known to hold no image.
    pub fn known_empty(&self) -> (r: bool)
        ensures
            r == self.is_known_empty(),
    {
        self.dir.known_empty()
    }
}

/// The size estimate of a frame whose estimate fits, in a wide integer.
fn size_estimate_wide_u32(width: u32, height: u32) -> (r: i128)
    requires
        size_fits(width, height),
    ensures
        r == image_size(width, height),
        0 <= r <= u32::MAX,
{
    assert(width * height <= width * height * 6) by (nonlinear_arith);
    let s: u32 = width * height * 6;
    s as i128
}

/// Replacing an entry by one with the same id keeps the order.
proof fn lemma_update_keeps_order<F>(t: Seq<TextureState<F>>, i: int, e: TextureState<F>)
    requires
        keys_sorted(t),
        0 <= i < t.len(),
        e.req_id == t[i].req_id,
    ensures
        keys_sorted(t.update(i, e)),
{
    assert forall|a: int, b: int| 0 <= a < b < t.update(i, e).len() implies #[trigger] t.update(i, e)[a].req_id
        < #[trigger] t.update(i, e)[b].req_id by {
        assert(t.update(i, e)[a].req_id == t[a].req_id);
        assert(t.update(i, e)[b].req_id == t[b].req_id);
    };
}

/// Replacing an entry by one whose frames fit keeps every frame fitting.
proof fn lemma_update_keeps_fit<F>(t: Seq<TextureState<F>>, i: int, e: TextureState<F>)
    requires
        textures_fit(t),
        0 <= i < t.len(),
        frames_fit(e.frames),
    ensures
        textures_fit(t.update(i, e)),
{
    assert forall|k: int| 0 <= k < t.update(i, e).len() implies #[trigger] frames_fit(t.update(i, e)[k].frames) by {
        if k != i {
            assert(t.update(i, e)[k] == t[k]);
        }
    };
}

/// Finishing a request keeps every waiting result fitting.
proof fn lemma_finished_keeps_fit<F>(p: Map<u32, RequestState<F>>, id: u32)
    requires
        pending_fit(p),
    ensures
        pending_fit(finished_map(p, id)),
{
    let q = finished_map(p, id);
    assert forall|x: u32, k: int| q.dom().contains(x) && 0 <= k < q[x].2.len() implies #[trigger] result_fits(q[x].2[k]) by {
        assert(p.dom().contains(x));
        assert(q[x].2 == p[x].2);
    };
}

/// For ordered entries without `id`, the position where `id` belongs is the one
/// that separates smaller ids from larger ones.
proof fn lemma_insert_index_unique<F>(t: Seq<TextureState<F>>, id: u32, p: int)
    requires
        keys_sorted(t),
        0 <= p <= t.len(),
        forall|k: int| 0 <= k < p ==> #[trigger] t[k].req_id < id,
        forall|k: int| p <= k < t.len() ==> #[trigger] t[k].req_id > id,
    ensures
        insert_index(t, id) == p,
        !has_key(t, id),
{
    assert(separates(t, id, p));
    let q = insert_index(t, id);
    assert(separates(t, id, q));
    if q < p {
        assert(t[q].req_id > id && t[q].req_id < id);
    } else if q > p {
        assert(t[p].req_id > id && t[p].req_id < id);
    }
    if has_key(t, id) {
        let i = choose|i: int| 0 <= i < t.len() && #[trigger] t[i].req_id == id;
        if i < p {
            assert(t[i].req_id < id);
        } else {
            assert(t[i].req_id > id);
        }
    }
}

/// The start and the frames of a request that is no longer waited for (cancelled,
/// finished or unknown) change nothing: an image of a folder left behind never enters
/// the cache.
pub proof fn lemma_inactive_results_ignored<F>(s: CacheState<F>, lr: LoadResult<F>)
    requires
        !active(s.pending, result_req_id(lr)),
        lr is Start || lr is Frame,
    ensures
        upload_step(s, lr).0 == s,
        upload_step(s, lr).1 is Ok,
{
}

/// Frame numbers wrap around the frames: every frame number, negative ones included,
/// names one of the `count` frames, frame numbers that differ by `count` name the same
/// frame, and `-1` names the last frame.
pub proof fn lemma_wrap_frame(frame_id: int, count: int)
    requires
        count > 0,
    ensures
        0 <= wrap_frame(frame_id, count) < count,
        wrap_frame(frame_id + count, count) == wrap_frame(frame_id, count),
        wrap_frame(-1, count) == count - 1,
{
    vstd::arithmetic::div_mod::lemma_mod_add_multiples_vanish(frame_id, count);
    lemma_wrap_negative(1, count);
    if count > 1 {
        vstd::arithmetic::div_mod::lemma_small_mod(1, count as nat);
    }
}

/// In ordered entries, the entry at `i` is the entry of its id.
proof fn lemma_key_index_at<F>(t: Seq<TextureState<F>>, i: int)
    requires
        keys_sorted(t),
        0 <= i < t.len(),
    ensures
        has_key(t, t[i].req_id),
        key_index(t, t[i].req_id) == i,
{
    let id = t[i].req_id;
    assert(has_key(t, id));
    let j = key_index(t, id);
    if j < i {
        assert(t[j].req_id < t[i].req_id);
    } else if j > i {
        assert(t[i].req_id < t[j].req_id);
    }
}

/// Ordered entries without `id` have a place for it.
proof fn lemma_separator_exists<F>(t: Seq<TextureState<F>>, id: u32)
    requires
        keys_sorted(t),
        !has_key(t, id),
    ensures
        separates(t, id, insert_index(t, id)),
    decreases t.len(),
{
    if t.len() == 0 {
        assert(separates(t, id, 0));
    } else {
        let d = t.drop_last();
        assert forall|a: int, b: int| 0 <= a < b < d.len() implies #[trigger] d[a].req_id < #[trigger] d[b].req_id by {
            assert(d[a] == t[a] && d[b] == t[b]);
        };
        if has_key(d, id) {
            let k = choose|k: int| 0 <= k < d.len() && #[trigger] d[k].req_id == id;
            assert(t[k].req_id == id);
        }
        lemma_separator_exists(d, id);
        let p = insert_index(d, id);
        assert(t[t.len() - 1].req_id != id);
        if t.last().req_id < id {
            assert forall|k: int| 0 <= k < t.len() implies #[trigger] t[k].req_id < id by {
                if k < t.len() - 1 {
                    assert(t[k].req_id < t[t.len() - 1].req_id);
                }
            };
            assert(separates(t, id, t.len() as int));
        } else {
            assert forall|k: int| 0 <= k < p implies #[trigger] t[k].req_id < id by {
                assert(t[k] == d[k]);
            };
            assert forall|k: int| p <= k < t.len() implies #[trigger] t[k].req_id > id by {
                if k < t.len() - 1 {
                    assert(t[k] == d[k]);
                }
            };
            assert(separates(t, id, p));
        }
    }
}

/// Putting an entry for a new id at its place keeps the entries ordered, and the entry
/// is found there.
proof fn lemma_insert_at_place<F>(t: Seq<TextureState<F>>, x: TextureState<F>)
    requires
        keys_sorted(t),
        !has_key(t, x.req_id),
    ensures
        keys_sorted(t.insert(insert_index(t, x.req_id), x)),
        has_key(t.insert(insert_index(t, x.req_id), x), x.req_id),
        entry(t.insert(insert_index(t, x.req_id), x), x.req_id) == x,
{
    let id = x.req_id;
    lemma_separator_exists(t, id);
    let p = insert_index(t, id);
    let u = t.insert(p, x);
    assert forall|a: int, b: int| 0 <= a < b < u.len() implies #[trigger] u[a].req_id < #[trigger] u[b].req_id by {
        if a < p && b < p {
            assert(u[a] == t[a] && u[b] == t[b]);
        } else if a < p && b == p {
            assert(u[a] == t[a]);
        } else if a < p {
            assert(u[a] == t[a] && u[b] == t[b - 1]);
        } else if a == p {
            assert(u[b] == t[b - 1]);
        } else {
            assert(u[a] == t[a - 1] && u[b] == t[b - 1]);
        }
    };
    assert(u[p] == x);
    lemma_key_index_at(u, p);
}

/// An image that is loaded is shown: for a waiting request without an entry, once its
/// start (with the file's modification time), one frame and its end are handled, the
/// entry holds that frame, complete and not failed, the request is done, and asking for
/// frame zero (with the file unchanged) answers that frame.
pub proof fn lemma_loaded_image_is_shown<F>(
    s: CacheState<F>,
    id: u32,
    mod_time: Option<u64>,
    f: AnimationFrameTexture<F>,
)
    requires
        keys_sorted(s.textures),
        active(s.pending, id),
        !has_key(s.textures, id),
    ensures
        ({
            let s1 = upload_step(s, LoadResult::Start { req_id: id, mod_time }).0;
            let s2 = upload_step(
                s1,
                LoadResult::Frame {
                    req_id: id,
                    image: f.image,
                    width: f.width,
                    height: f.height,
                    delay_nano: f.delay_nano,
                    orientation: f.orientation,
                },
            ).0;
            let s3 = upload_step(s2, LoadResult::Done { req_id: id }).0;
            &&& has_key(s3.textures, id)
            &&& entry(s3.textures, id).fully_loaded
            &&& !entry(s3.textures, id).failed
            &&& entry(s3.textures, id).frames == seq![f]
            &&& !(s3.pending.dom().contains(id) && !s3.pending[id].1)
            &&& cached_frame(entry(s3.textures, id), mod_time, 0) == Some(0int)
        }),
{
    let s1 = upload_step(s, LoadResult::Start { req_id: id, mod_time }).0;
    let x = fresh_texture::<F>(id, mod_time);
    lemma_insert_at_place(s.textures, x);
    assert(s1.textures == s.textures.insert(insert_index(s.textures, id), x));
    let t1 = s1.textures;
    let k1 = key_index(t1, id);
    let fr = LoadResult::Frame {
        req_id: id,
        image: f.image,
        width: f.width,
        height: f.height,
        delay_nano: f.delay_nano,
        orientation: f.orientation,
    };
    let s2 = upload_step(s1, fr).0;
    let e2 = TextureState { frames: x.frames.push(f), ..x };
    assert(s2.textures == t1.update(k1, e2));
    lemma_update_keeps_order(t1, k1, e2);
    assert(t1.update(k1, e2)[k1] == e2);
    lemma_key_index_at(t1.update(k1, e2), k1);
    let s3 = upload_step(s2, LoadResult::Done { req_id: id }).0;
    let t2 = s2.textures;
    let e3 = TextureState { fully_loaded: true, ..e2 };
    assert(s3.textures == t2.update(k1, e3));
    lemma_update_keeps_order(t2, k1, e3);
    assert(t2.update(k1, e3)[k1] == e3);
    lemma_key_index_at(t2.update(k1, e3), k1);
    assert(e3.frames =~= seq![f]);
    assert(wrap_frame(0, 1) == 0);
}

/// A file without an entry is requested with the entries left as they are; an entry
/// that needs no update stops the request and stays; an entry that needs an update
/// while one of the two modification times is unknown stays, no longer needing an
/// update, and the request goes on.
pub proof fn lemma_entry_check_without_change<F>(t: Seq<TextureState<F>>, id: u32, file_mod_time: Option<u64>)
    requires
        keys_sorted(t),
    ensures
        !has_key(t, id) ==> entry_check(t, id, file_mod_time) == (t, true),
        has_key(t, id) && !entry(t, id).needs_update ==> entry_check(t, id, file_mod_time) == (t, false),
        has_key(t, id) && entry(t, id).needs_update && (entry(t, id).mod_time is None
            || file_mod_time is None) ==> {
            let c = entry_check(t, id, file_mod_time);
            &&& c.1
            &&& c.0.len() == t.len()
            &&& has_key(c.0, id)
            &&& entry(c.0, id) == TextureState { needs_update: false, ..entry(t, id) }
        },
{
    if has_key(t, id) && entry(t, id).needs_update {
        let i = key_index(t, id);
        assert(0 <= i < t.len() && t[i].req_id == id);
        let cleared = t.update(i, TextureState { needs_update: false, ..entry(t, id) });
        assert forall|a: int, b: int| 0 <= a < b < cleared.len() implies #[trigger] cleared[a].req_id
            < #[trigger] cleared[b].req_id by {
            assert(cleared[a].req_id == t[a].req_id);
            assert(cleared[b].req_id == t[b].req_id);
        }
        lemma_key_index_at(cleared, i);
    }
}

/// A file that changed on disk is loaded again: when its entry needs an update and
/// both the cached and the listed modification times are known and differ, considering
/// a request for it drops its entry, keeps every other entry as it was, and lets the
/// request go on; with the requests not full and none waiting for the file, the request
/// is sent to the loader. When the two times agree, the entry stays (no longer needing
/// an update) and nothing is requested.
pub proof fn lemma_changed_file_requested_again<F>(
    s: CacheState<F>,
    path: String,
    id: u32,
    file_mod_time: Option<u64>,
    priority: bool,
)
    requires
        keys_sorted(s.textures),
        has_key(s.textures, id),
        entry(s.textures, id).needs_update,
        entry(s.textures, id).mod_time is Some,
        file_mod_time is Some,
    ensures
        entry(s.textures, id).mod_time != file_mod_time ==> {
            let c = entry_check(s.textures, id, file_mod_time);
            &&& c.1
            &&& !has_key(c.0, id)
            &&& c.0.len() + 1 == s.textures.len()
            &&& forall|other: u32|
                other != id ==> (#[trigger] has_key(c.0, other) == has_key(s.textures, other)) && (
                has_key(s.textures, other) ==> entry(c.0, other) == entry(s.textures, other))
        },
        entry(s.textures, id).mod_time != file_mod_time && unfinished_ids(s.pending).len()
            < MAX_PENDING_REQUESTS && !(s.pending.dom().contains(id) && !s.pending[id].1) ==> {
            let r = request_step(s, path, id, file_mod_time, priority);
            &&& r.1
            &&& r.0.outgoing == s.outgoing.push(LoadRequest { req_id: id, path })
            &&& r.0.pending.dom().contains(id)
            &&& !has_key(r.0.textures, id)
        },
        entry(s.textures, id).mod_time == file_mod_time ==> {
            let c = entry_check(s.textures, id, file_mod_time);
            &&& !c.1
            &&& has_key(c.0, id)
            &&& !entry(c.0, id).needs_update
            &&& !request_step(s, path, id, file_mod_time, priority).1
        },
{
    let t = s.textures;
    let i = key_index(t, id);
    let e = TextureState { needs_update: false, ..entry(t, id) };
    let cleared = t.update(i, e);
    assert(0 <= i < t.len() && t[i].req_id == id);
    assert(cleared[i] == e);
    assert forall|a: int, b: int| 0 <= a < b < cleared.len() implies #[trigger] cleared[a].req_id
        < #[trigger] cleared[b].req_id by {
        assert(cleared[a].req_id == t[a].req_id);
        assert(cleared[b].req_id == t[b].req_id);
    }
    if entry(t, id).mod_time == file_mod_time {
        lemma_key_index_at(cleared, i);
    } else {
        let u = cleared.remove(i);
        assert(entry_check(t, id, file_mod_time) == (u, true));
        assert(u.len() + 1 == t.len());
        assert forall|k: int| 0 <= k < u.len() implies #[trigger] u[k] == t[if k < i { k } else { k + 1 }] by {}
        assert forall|a: int, b: int| 0 <= a < b < u.len() implies #[trigger] u[a].req_id
            < #[trigger] u[b].req_id by {
            let ta = if a < i { a } else { a + 1 };
            let tb = if b < i { b } else { b + 1 };
            assert(u[a] == t[ta] && u[b] == t[tb]);
        }
        assert(!has_key(u, id)) by {
            if has_key(u, id) {
                let k = choose|k: int| 0 <= k < u.len() && #[trigger] u[k].req_id == id;
                let tk = if k < i { k } else { k + 1 };
                assert(u[k] == t[tk]);
                if tk < i {
                    assert(t[tk].req_id < t[i].req_id);
                } else {
                    assert(t[i].req_id < t[tk].req_id);
                }
            }
        }
        assert forall|other: u32| other != id implies (#[trigger] has_key(u, other) == has_key(t, other))
            && (has_key(t, other) ==> entry(u, other) == entry(t, other)) by {
            if has_key(t, other) {
                let j = key_index(t, other);
                assert(j != i);
                let k = if j < i { j } else { j - 1 };
                assert(u[k] == t[j]);
                lemma_key_index_at(u, k);
            }
            if has_key(u, other) {
                let k = choose|k: int| 0 <= k < u.len() && #[trigger] u[k].req_id == other;
                let tk = if k < i { k } else { k + 1 };
                assert(u[k] == t[tk]);
            }
        }
    }
}

} // verus!
