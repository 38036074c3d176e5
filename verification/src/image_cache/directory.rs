//! The files of the open folder, which of them are images, and the current one.

use vstd::prelude::*;
use crate::image_cache::image_loader::{is_file_supported, is_supported_name};
use crate::image_cache::name_order::{
    comparable_name, name_is_comparable, names_comparable, sort_by_name, sorted_by_name,
};
use crate::parallel_action::{ActionState, ParallelAction};
use crate::text::concat_str;

verus! {

broadcast use vstd::seq_lib::group_to_multiset_ensures;

/// Why a folder operation failed.
#[derive(Debug)]
pub enum Error {
    /// The folder is still being sorted into images and other files.
    WaitingOnFolderFilter,
    Other(String),
}

impl Error {
    /// The message describing the error.
    pub fn to_string(&self) -> (r: String)
        ensures
            r@ == (match self {
                Error::WaitingOnFolderFilter => "The directory is still being filtered for images"@,
                Error::Other(s) => "Other error: "@ + s@,
            }),
    {
        match self {
            Error::WaitingOnFolderFilter => "The directory is still being filtered for images".to_owned(),
            Error::Other(s) => concat_str("Other error: ", s.as_str()),
        }
    }
}

/// A file of the open folder.
#[derive(Debug)]
pub struct DirItem {
    /// The full path of the file.
    pub path: String,
    /// The last component of `path`.
    pub file_name: String,
    /// Sometimes also abbreviated as `req_id` is used as a more efficient replacement
    /// of a path to identify a file load request.
    pub request_id: u32,
    /// The modification time of the file when the folder was listed, in nanoseconds
    /// since the Unix epoch, when the system reports one.
    pub modified: Option<u64>,
}

impl Clone for DirItem {
    fn clone(&self) -> (r: Self)
        ensures
            r == *self,
    {
        DirItem {
            path: self.path.clone(),
            file_name: self.file_name.clone(),
            request_id: self.request_id,
            modified: self.modified,
        }
    }
}

/// An entry of a folder listing: its path, its file name, whether it is a file
/// or a symbolic link (as opposed to a folder), and its modification time in
/// nanoseconds since the Unix epoch, when the system reports one.
#[derive(Debug, Clone)]
pub struct ListedEntry {
    pub path: String,
    pub file_name: String,
    pub is_file_or_symlink: bool,
    pub modified: Option<u64>,
}

/// The item is an image the viewer opens.
pub open spec fn supported_item(it: DirItem) -> bool {
    is_supported_name(it.file_name@)
}

/// The indices of the images among `files`, in increasing order.
pub open spec fn supported_indices(files: Seq<DirItem>) -> Seq<usize>
    decreases files.len(),
{
    if files.len() == 0 {
        Seq::empty()
    } else {
        let p = supported_indices(files.drop_last());
        if supported_item(files.last()) {
            p.push((files.len() - 1) as usize)
        } else {
            p
        }
    }
}

/// For each file index up to the last image, the image index of the file, `None` for
/// a file that is not an image.
pub open spec fn image_slots(imgs: Seq<usize>) -> Seq<Option<u32>>
    decreases imgs.len(),
{
    if imgs.len() == 0 {
        Seq::empty()
    } else {
        let p = image_slots(imgs.drop_last());
        let f = imgs.last() as int;
        let pad = if f >= p.len() { f - p.len() } else { 0 };
        (p + Seq::new(pad as nat, |_i: int| None::<u32>)).push(Some((imgs.len() - 1) as u32))
    }
}

/// The files and symbolic links of a listing, numbered from `last_id + 1` on.
pub open spec fn listed_files(entries: Seq<ListedEntry>, last_id: int) -> Seq<DirItem>
    decreases entries.len(),
{
    if entries.len() == 0 {
        Seq::empty()
    } else {
        let p = listed_files(entries.drop_last(), last_id);
        let e = entries.last();
        if e.is_file_or_symlink {
            p.push(
                DirItem {
                    path: e.path,
                    file_name: e.file_name,
                    request_id: (last_id + p.len() + 1) as u32,
                    modified: e.modified,
                },
            )
        } else {
            p
        }
    }
}

/// The index of the first image among `files`.
pub open spec fn first_supported(files: Seq<DirItem>) -> Option<int> {
    first_supported_from(files, 0)
}

/// The index of the first file named `name`.
pub open spec fn first_named(files: Seq<DirItem>, name: Seq<char>) -> Option<int>
    decreases files.len(),
{
    if files.len() == 0 {
        None
    } else if files[0].file_name@ == name {
        Some(0)
    } else {
        match first_named(files.drop_first(), name) {
            Some(i) => Some(i + 1),
            None => None,
        }
    }
}

/// The first file named `name` is a file of `files`.
pub proof fn lemma_first_named_range(files: Seq<DirItem>, name: Seq<char>)
    ensures
        first_named(files, name) matches Some(i) ==> 0 <= i < files.len() && files[i].file_name@
            == name,
    decreases files.len(),
{
    if files.len() > 0 && files[0].file_name@ != name {
        lemma_first_named_range(files.drop_first(), name);
    }
}

/// The first image at or after `from`.
pub open spec fn first_supported_from(files: Seq<DirItem>, from: int) -> Option<int>
    decreases files.len() - from,
{
    if from < 0 || from >= files.len() {
        None
    } else if supported_item(files[from]) {
        Some(from)
    } else {
        first_supported_from(files, from + 1)
    }
}

/// `x`, brought back into `0..len` from `0..2 * len`.
pub open spec fn wrap(x: int, len: int) -> int {
    if x >= len {
        x - len
    } else {
        x
    }
}

/// Looking forward from `cur`, wrapping around, the `k`th file and on: the first image
/// before arriving back at `cur`.
pub open spec fn scan_forward(files: Seq<DirItem>, cur: int, k: int) -> Option<int>
    decreases files.len() - k,
{
    if k < 1 || k >= files.len() {
        None
    } else if supported_item(files[wrap(cur + k, files.len() as int)]) {
        Some(wrap(cur + k, files.len() as int))
    } else {
        scan_forward(files, cur, k + 1)
    }
}

/// Looking backward from `cur`, wrapping around, the `k`th file and on: the first image
/// before arriving back at `cur`.
pub open spec fn scan_backward(files: Seq<DirItem>, cur: int, k: int) -> Option<int>
    decreases files.len() - k,
{
    if k < 1 || k >= files.len() {
        None
    } else if supported_item(files[wrap(cur + files.len() - k, files.len() as int)]) {
        Some(wrap(cur + files.len() - k, files.len() as int))
    } else {
        scan_backward(files, cur, k + 1)
    }
}

/// The next image after the file `cur`, wrapping around.
pub open spec fn next_image(files: Seq<DirItem>, cur: int) -> Option<int> {
    scan_forward(files, cur % (files.len() as int), 1)
}

/// The previous image before the file `cur`, wrapping around.
pub open spec fn prev_image(files: Seq<DirItem>, cur: int) -> Option<int> {
    scan_backward(files, cur, 1)
}

/// Setting the current file to `f` makes this the current image index: the image
/// index of `f` where the slots know it, the previous one otherwise.
pub open spec fn image_index_after(slots: Seq<Option<u32>>, f: int, prev: usize) -> usize {
    if 0 <= f < slots.len() {
        slots[f].unwrap() as usize
    } else {
        prev
    }
}

/// Looking up the image index of file `f` fails: the file is known not to be an image.
pub open spec fn slot_panics(slots: Seq<Option<u32>>, f: int) -> bool {
    0 <= f < slots.len() && slots[f] is None
}

/// The folder being viewed: its files sorted by name, which of them are images, and
/// the current file.
pub struct Directory {
    path: String,
    files: Vec<DirItem>,
    /// Maps image indicies to indicies for the `files` vector.
    img_i_to_file_i: Vec<usize>,
    /// Maps file indicies to image indicies, up to the last image.
    file_i_to_img_i: Vec<Option<u32>>,
    /// A monotonically increasing integer used for identifying each load request
    current_req_id: u32,
    /// current file index
    curr_file_idx: usize,
    /// Current image index.
    curr_image_idx: usize,
    /// Sorts out which files are images.
    filter_action: ParallelAction<Vec<DirItem>, Vec<usize>>,
}

/// What a check for the filter's output does: a ready output becomes the image list,
/// and the current image index follows the current file.
pub open spec fn filter_checked(pre: Directory, post: Directory) -> bool {
    &&& post.path_view() == pre.path_view()
    &&& post.files() == pre.files()
    &&& post.curr_file() == pre.curr_file()
    &&& post.last_req_id() == pre.last_req_id()
    &&& match pre.filter_state() {
        ActionState::OutputReady(out) => {
            &&& post.image_files() == out@
            &&& post.slots() == image_slots(out@)
            &&& post.filter_state() is Ready
            &&& post.curr_image() == image_index_after(
                image_slots(out@),
                pre.curr_file() as int,
                pre.curr_image(),
            )
        },
        _ => {
            &&& post.image_files() == pre.image_files()
            &&& post.slots() == pre.slots()
            &&& post.filter_state() == pre.filter_state()
            &&& post.curr_image() == pre.curr_image()
        },
    }
}

/// The filter has finished: its output is ready or already taken.
pub open spec fn filter_done(d: Directory) -> bool {
    d.filter_state() is Ready || d.filter_state() is OutputReady
}

/// Taking a ready filter output would look up the image index of a file known not to
/// be an image.
pub open spec fn check_panics(d: Directory, f: int) -> bool {
    match d.filter_state() {
        ActionState::OutputReady(out) => slot_panics(image_slots(out@), f),
        _ => false,
    }
}

/// Reading a listing into the folder: its files and links sorted by name, numbered
/// after the last request id, the first image made current, the filter started.
pub open spec fn collected(pre: Directory, post: Directory, entries: Seq<ListedEntry>) -> bool {
    let listed = listed_files(entries, pre.last_req_id() as int);
    &&& post.files().to_multiset() == listed.to_multiset()
    &&& sorted_by_name(post.files())
    &&& post.last_req_id() == pre.last_req_id() + listed.len()
    &&& post.curr_file() == (match first_supported(post.files()) {
        Some(i) => i as usize,
        None => pre.curr_file(),
    })
    &&& post.curr_image() == pre.curr_image()
    &&& post.image_files().len() == 0
    &&& post.slots().len() == 0
    &&& post.filter_state() is InputGiven
}

/// A listing that cannot be sorted: two file names hold numbers too long to compare.
/// The request ids of its files are spent; nothing else changes.
pub open spec fn collect_refused(pre: Directory, post: Directory, entries: Seq<ListedEntry>) -> bool {
    let listed = listed_files(entries, pre.last_req_id() as int);
    &&& !names_comparable(listed)
    &&& post.files() == pre.files()
    &&& post.last_req_id() == pre.last_req_id() + listed.len()
    &&& post.curr_file() == pre.curr_file()
    &&& post.curr_image() == pre.curr_image()
    &&& post.image_files() == pre.image_files()
    &&& post.slots() == pre.slots()
    &&& post.filter_state() == pre.filter_state()
}

/// The message of a listing that cannot be sorted.
pub open spec fn uncomparable_message() -> Seq<char> {
    "Two file names hold numbers too long to compare"@
}

/// Nothing but the path changed.
pub open spec fn same_but_path(pre: Directory, post: Directory) -> bool {
    &&& post.files() == pre.files()
    &&& post.last_req_id() == pre.last_req_id()
    &&& post.curr_file() == pre.curr_file()
    &&& post.curr_image() == pre.curr_image()
    &&& post.image_files() == pre.image_files()
    &&& post.slots() == pre.slots()
    &&& post.filter_state() == pre.filter_state()
}

/// Reading a folder listing into the directory, or failing to.
pub open spec fn collect_outcome(
    pre: Directory,
    post: Directory,
    listing: Result<Vec<ListedEntry>, String>,
    r: Result<(), Error>,
) -> bool {
    match listing {
        Err(msg) => r == Err::<(), Error>(Error::Other(msg)) && same_but_path(pre, post),
        Ok(entries) => if names_comparable(listed_files(entries@, pre.last_req_id() as int)) {
            r is Ok && collected(pre, post, entries@)
        } else {
            (r matches Err(Error::Other(m)) && m@ == uncomparable_message()) && collect_refused(
                pre,
                post,
                entries@,
            )
        },
    }
}

/// What changing to the folder `path` does: nothing when it is the folder already,
/// otherwise the path changes and the listing is read in.
pub open spec fn changed_directory(
    pre: Directory,
    post: Directory,
    path: Seq<char>,
    listing: Result<Vec<ListedEntry>, String>,
    r: Result<(), Error>,
) -> bool {
    &&& post.path_view() == path
    &&& if pre.path_view() == path {
        r is Ok && same_but_path(pre, post)
    } else {
        collect_outcome(pre, post, listing, r)
    }
}

/// Changing to the folder `path` (reading `listing` when it is another folder) and
/// making the first file named `filename` current; a missing file is an error.
pub open spec fn file_selected(
    pre: Directory,
    post: Directory,
    path: Seq<char>,
    listing: Result<Vec<ListedEntry>, String>,
    filename: Seq<char>,
    r: Result<(), Error>,
) -> bool {
    (r is Err && changed_directory(pre, post, path, listing, r)) || exists|mid: Directory|
        #[trigger] changed_directory(pre, mid, path, listing, Ok(())) && match first_named(
            mid.files(),
            filename,
        ) {
            Some(f) => r is Ok && selected_file(mid, post, f),
            None => (r matches Err(Error::Other(m)) && m@ == not_found_message(filename, path))
                && same_state(mid, post),
        }
}

/// Making the image `index` current, once a ready filter output is taken: an error
/// while the folder is being filtered, or when there is no such image.
pub open spec fn index_set(pre: Directory, post: Directory, index: int, r: Result<(), Error>) -> bool {
    exists|mid: Directory|
        #[trigger] filter_checked(pre, mid) && if !filter_done(pre) {
            (r matches Err(Error::WaitingOnFolderFilter)) && same_state(mid, post)
        } else if 0 <= index < mid.image_files().len() && mid.image_files()[index] < mid.files().len() {
            r is Ok && moved_to(mid, post, mid.image_files()[index] as int, index)
        } else {
            (r matches Err(Error::Other(m)) && m@ == "Could not find image index"@) && same_state(
                mid,
                post,
            )
        }
}

/// Reading the folder again from `listing`: on success (answered `Ok`) the file of the
/// same name stays current (see `updated_current`); a listing that cannot be read in
/// answers its error.
pub open spec fn directory_updated(
    pre: Directory,
    post: Directory,
    listing: Result<Vec<ListedEntry>, String>,
    r: Result<(), Error>,
) -> bool {
    (r is Err && collect_outcome(pre, post, listing, r)) || (r is Ok && exists|mid: Directory|
        #[trigger] collect_outcome(pre, mid, listing, Ok(())) && moved_to(
            mid,
            post,
            updated_current(mid.files(), curr_name(pre), pre.curr_file() as int, mid.curr_file() as int),
            mid.curr_image() as int,
        ))
}

/// The listing fits the request ids left: numbering its files does not pass `u32::MAX`.
pub open spec fn ids_fit(d: Directory, listing: Result<Vec<ListedEntry>, String>) -> bool {
    listing matches Ok(entries) ==> d.last_req_id() + listed_files(
        entries@,
        d.last_req_id() as int,
    ).len() <= u32::MAX
}

/// The current file, if the current index is a file of the folder.
pub open spec fn curr_item(d: Directory) -> Option<DirItem> {
    if d.curr_file() < d.files().len() {
        Some(d.files()[d.curr_file() as int])
    } else {
        None
    }
}

/// The name of the current file, empty when there is none.
pub open spec fn curr_name(d: Directory) -> Seq<char> {
    if d.curr_file() < d.files().len() {
        d.files()[d.curr_file() as int].file_name@
    } else {
        Seq::empty()
    }
}

impl Directory {
    pub closed spec fn path_view(&self) -> Seq<char> {
        self.path@
    }

    pub closed spec fn files(&self) -> Seq<DirItem> {
        self.files@
    }

    pub closed spec fn image_files(&self) -> Seq<usize> {
        self.img_i_to_file_i@
    }

    pub closed spec fn slots(&self) -> Seq<Option<u32>> {
        self.file_i_to_img_i@
    }

    pub closed spec fn last_req_id(&self) -> u32 {
        self.current_req_id
    }

    pub closed spec fn curr_file(&self) -> usize {
        self.curr_file_idx
    }

    pub closed spec fn curr_image(&self) -> usize {
        self.curr_image_idx
    }

    pub closed spec fn filter_state(&self) -> ActionState<Vec<DirItem>, Vec<usize>> {
        self.filter_action.state()
    }

    /// Taking a ready filter output with an image current does not fail.
    pub proof fn lemma_image_no_check_panic(&self, f: int)
        requires
            self.wf(),
            0 <= f < self.files().len(),
            supported_item(self.files()[f]),
        ensures
            !check_panics(*self, f),
    {
        assert(self.files.len() == self.files@.len());
        match self.filter_state() {
            ActionState::OutputReady(out) => {
                lemma_supported_indices(self.files@);
                lemma_image_slots(out@);
                let k = choose|k: int| 0 <= k < out@.len() && out@[k] == f;
                assert(image_slots(out@)[f] == Some(k as u32));
            },
            _ => {},
        }
    }

    /// Every image index names a file of the folder.
    pub proof fn lemma_images_in_range(&self)
        requires
            self.wf(),
        ensures
            forall|k: int| 0 <= k < self.image_files().len() ==> #[trigger] self.image_files()[k]
                < self.files().len(),
    {
        assert(self.files.len() == self.files@.len());
        lemma_supported_indices(self.files@);
    }

    /// The files and the image list are held in memory: their lengths fit `usize`.
    pub proof fn lemma_lengths_fit(&self)
        ensures
            self.files().len() <= usize::MAX,
            self.image_files().len() <= usize::MAX,
    {
        assert(self.files.len() == self.files@.len());
        assert(self.img_i_to_file_i.len() == self.img_i_to_file_i@.len());
    }

    /// The image list is the images of the files, or empty while the filter has not
    /// delivered; the slots are its inverse; a pending filter works on the current
    /// files.
    pub open spec fn wf(&self) -> bool {
        &&& (self.image_files().len() == 0 || self.image_files() == supported_indices(
            self.files(),
        ))
        &&& self.slots() == image_slots(self.image_files())
        &&& match self.filter_state() {
            ActionState::Ready => true,
            ActionState::InputGiven(inp) => inp@ == self.files() && self.image_files().len()
                == 0,
            ActionState::Pending => false,
            ActionState::OutputReady(out) => out@ == supported_indices(self.files())
                && self.image_files().len() == 0,
        }
    }

    /// No folder open yet.
    pub fn new() -> (r: Directory)
        ensures
            r.wf(),
            r.path_view() == Seq::<char>::empty(),
            r.files() == Seq::<DirItem>::empty(),
            r.image_files() == Seq::<usize>::empty(),
            r.slots() == Seq::<Option<u32>>::empty(),
            r.curr_file() == 0,
            r.curr_image() == 0,
            r.last_req_id() == 0,
            r.filter_state() is Ready,
    {
        Directory {
            path: String::new(),
            files: Vec::new(),
            img_i_to_file_i: Vec::new(),
            file_i_to_img_i: Vec::new(),
            curr_file_idx: 0,
            curr_image_idx: 0,
            current_req_id: 0,
            filter_action: ParallelAction::new(),
        }
    }
}

proof fn lemma_supported_indices(files: Seq<DirItem>)
    requires
        files.len() <= usize::MAX,
    ensures
        forall|k: int|
            0 <= k < supported_indices(files).len() ==> (supported_indices(files)[k] as int)
                < files.len() && supported_item(files[supported_indices(files)[k] as int]),
        forall|k1: int, k2: int|
            0 <= k1 < k2 < supported_indices(files).len() ==> supported_indices(files)[k1]
                < supported_indices(files)[k2],
        forall|f: int|
            0 <= f < files.len() && supported_item(files[f]) ==> exists|k: int|
                0 <= k < supported_indices(files).len() && supported_indices(files)[k] == f,
    decreases files.len(),
{
    if files.len() > 0 {
        let d = files.drop_last();
        lemma_supported_indices(d);
        let p = supported_indices(d);
        assert forall|f: int| 0 <= f < files.len() && supported_item(files[f]) implies exists|k: int|
            0 <= k < supported_indices(files).len() && supported_indices(files)[k] == f by {
            if f < files.len() - 1 {
                assert(files[f] == d[f]);
                let k = choose|k: int| 0 <= k < p.len() && p[k] == f;
                assert(supported_indices(files)[k] == f);
            } else {
                assert(files[f] == files.last());
                assert(supported_indices(files)[p.len() as int] == f);
            }
        }
        assert forall|k: int| 0 <= k < supported_indices(files).len() implies (supported_indices(
            files,
        )[k] as int) < files.len() && supported_item(files[supported_indices(files)[k] as int]) by {
            if k < p.len() {
                assert(supported_indices(files)[k] == p[k]);
                assert(files[p[k] as int] == d[p[k] as int]);
            }
        }
    }
}

proof fn lemma_image_slots(imgs: Seq<usize>)
    requires
        forall|k1: int, k2: int| 0 <= k1 < k2 < imgs.len() ==> imgs[k1] < imgs[k2],
    ensures
        imgs.len() == 0 ==> image_slots(imgs).len() == 0,
        imgs.len() > 0 ==> image_slots(imgs).len() == imgs.last() + 1,
        forall|k: int| 0 <= k < imgs.len() ==> image_slots(imgs)[imgs[k] as int] == Some(k as u32),
    decreases imgs.len(),
{
    if imgs.len() > 0 {
        let d = imgs.drop_last();
        lemma_image_slots(d);
        let p = image_slots(d);
        if d.len() > 0 {
            assert(d.last() < imgs.last());
        }
        assert forall|k: int| 0 <= k < imgs.len() implies image_slots(imgs)[imgs[k] as int] == Some(
            k as u32,
        ) by {
            if k < d.len() {
                assert(imgs[k] == d[k]);
                assert(d[k] <= d.last());
            }
        }
    }
}

/// Numbering a listing adds one file for each file or link.
proof fn lemma_listed_len(entries: Seq<ListedEntry>, last_id: int)
    ensures
        entries.len() > 0 ==> listed_files(entries, last_id).len() == listed_files(
            entries.drop_last(),
            last_id,
        ).len() + if entries.last().is_file_or_symlink { 1int } else { 0int },
{
}

/// A file below the last image that is not among the images has no image index.
proof fn lemma_image_slots_gap(imgs: Seq<usize>, f: int)
    requires
        forall|k1: int, k2: int| 0 <= k1 < k2 < imgs.len() ==> imgs[k1] < imgs[k2],
        0 <= f < image_slots(imgs).len(),
        forall|k: int| 0 <= k < imgs.len() ==> imgs[k] != f,
    ensures
        image_slots(imgs)[f] is None,
    decreases imgs.len(),
{
    let d = imgs.drop_last();
    lemma_image_slots(imgs);
    lemma_image_slots(d);
    let p = image_slots(d);
    if d.len() > 0 {
        assert(d.last() < imgs.last());
    }
    assert(imgs.last() != f);
    if f < p.len() {
        assert forall|k: int| 0 <= k < d.len() implies d[k] != f by {
            assert(d[k] == imgs[k]);
        };
        lemma_image_slots_gap(d, f);
    }
}

/// An image that the slots cover has an image index.
proof fn lemma_image_has_slot(d: Directory, f: int)
    requires
        d.wf(),
        d.files().len() <= usize::MAX,
        0 <= f < d.files().len(),
        supported_item(d.files()[f]),
    ensures
        !slot_panics(d.slots(), f),
{
    if d.image_files().len() > 0 {
        lemma_supported_indices(d.files());
        lemma_image_slots(d.image_files());
        let k = choose|k: int| 0 <= k < d.image_files().len() && d.image_files()[k] == f;
        assert(d.slots()[f] == Some(k as u32));
    }
}

/// Building the slots one image at a time.
proof fn lemma_image_slots_step(imgs: Seq<usize>, k: int)
    requires
        0 <= k < imgs.len(),
    ensures
        image_slots(imgs.take(k + 1)) == ({
            let p = image_slots(imgs.take(k));
            let f = imgs[k] as int;
            let pad = if f >= p.len() { f - p.len() } else { 0 };
            (p + Seq::new(pad as nat, |_i: int| None::<u32>)).push(Some(k as u32))
        }),
{
    assert(imgs.take(k + 1).drop_last() =~= imgs.take(k));
    assert(imgs.take(k + 1).last() == imgs[k]);
}

impl Directory {
    /// The image index of the current file, when the slots know it.
    fn set_image_index_from_file_index(&mut self)
        requires
            !slot_panics(old(self).slots(), old(self).curr_file() as int),
        ensures
            final(self).curr_image() == image_index_after(
                old(self).slots(),
                old(self).curr_file() as int,
                old(self).curr_image(),
            ),
            final(self).path_view() == old(self).path_view(),
            final(self).files() == old(self).files(),
            final(self).image_files() == old(self).image_files(),
            final(self).slots() == old(self).slots(),
            final(self).curr_file() == old(self).curr_file(),
            final(self).last_req_id() == old(self).last_req_id(),
            final(self).filter_state() == old(self).filter_state(),
    {
        if self.curr_file_idx < self.file_i_to_img_i.len() {
            match self.file_i_to_img_i[self.curr_file_idx] {
                Some(img_idx) => {
                    self.curr_image_idx = img_idx as usize;
                },
                None => {},
            }
        }
    }

    /// Rebuilds the slots from the image list, and the current image index with them.
    fn finished_filtering(&mut self)
        requires
            !slot_panics(image_slots(old(self).image_files()), old(self).curr_file() as int),
        ensures
            final(self).slots() == image_slots(old(self).image_files()),
            final(self).curr_image() == image_index_after(
                image_slots(old(self).image_files()),
                old(self).curr_file() as int,
                old(self).curr_image(),
            ),
            final(self).path_view() == old(self).path_view(),
            final(self).files() == old(self).files(),
            final(self).image_files() == old(self).image_files(),
            final(self).curr_file() == old(self).curr_file(),
            final(self).last_req_id() == old(self).last_req_id(),
            final(self).filter_state() == old(self).filter_state(),
    {
        self.file_i_to_img_i.clear();
        let mut k: usize = 0;
        assert(self.img_i_to_file_i@.take(0) =~= Seq::<usize>::empty());
        while k < self.img_i_to_file_i.len()
            invariant
                k <= self.img_i_to_file_i.len(),
                self.img_i_to_file_i == old(self).img_i_to_file_i,
                self.path == old(self).path,
                self.files == old(self).files,
                self.curr_file_idx == old(self).curr_file_idx,
                self.curr_image_idx == old(self).curr_image_idx,
                self.current_req_id == old(self).current_req_id,
                self.filter_action == old(self).filter_action,
                self.file_i_to_img_i@ == image_slots(self.img_i_to_file_i@.take(k as int)),
            decreases self.img_i_to_file_i.len() - k,
        {
            let f = self.img_i_to_file_i[k];
            let ghost p = self.file_i_to_img_i@;
            let ghost pad: int = if f >= p.len() { f - p.len() } else { 0 };
            while self.file_i_to_img_i.len() < f
                invariant
                    self.img_i_to_file_i == old(self).img_i_to_file_i,
                    self.path == old(self).path,
                    self.files == old(self).files,
                    self.curr_file_idx == old(self).curr_file_idx,
                    self.curr_image_idx == old(self).curr_image_idx,
                    self.current_req_id == old(self).current_req_id,
                    self.filter_action == old(self).filter_action,
                    p.len() <= self.file_i_to_img_i.len() <= (if f >= p.len() { f as int } else { p.len() as int }),
                    self.file_i_to_img_i@ == p + Seq::new(
                        (self.file_i_to_img_i.len() - p.len()) as nat,
                        |_i: int| None::<u32>,
                    ),
                decreases f - self.file_i_to_img_i.len(),
            {
                let ghost before = self.file_i_to_img_i@;
                self.file_i_to_img_i.push(None);
                assert(self.file_i_to_img_i@ =~= p + Seq::new(
                    (self.file_i_to_img_i.len() - p.len()) as nat,
                    |_i: int| None::<u32>,
                ));
            }
            assert(self.file_i_to_img_i.len() - p.len() == pad);
            self.file_i_to_img_i.push(Some(k as u32));
            proof {
                lemma_image_slots_step(self.img_i_to_file_i@, k as int);
                assert(self.file_i_to_img_i@ =~= image_slots(self.img_i_to_file_i@.take(k + 1)));
            }
            k = k + 1;
        }
        assert(self.img_i_to_file_i@.take(self.img_i_to_file_i.len() as int) =~= self.img_i_to_file_i@);
        self.set_image_index_from_file_index();
    }

    /// Takes the filter's output, if it is ready, as the image list. Returns whether the
    /// filter has finished.
    fn check_filter_ready(&mut self) -> (r: bool)
        requires
            old(self).wf(),
            !check_panics(*old(self), old(self).curr_file() as int),
        ensures
            final(self).wf(),
            filter_checked(*old(self), *final(self)),
            r == filter_done(*old(self)),
    {
        if let Some(out) = self.filter_action.try_get_output() {
            self.img_i_to_file_i = out;
            self.finished_filtering();
            return true;
        }
        self.filter_action.is_ready()
    }

    /// The worker's side of the filter: when the listing waits to be sorted into images
    /// and other files, sorts it and hands over the output.
    pub fn run_pending_filter(&mut self)
        requires
            old(self).wf(),
        ensures
            final(self).wf(),
            final(self).path_view() == old(self).path_view(),
            final(self).files() == old(self).files(),
            final(self).image_files() == old(self).image_files(),
            final(self).slots() == old(self).slots(),
            final(self).curr_file() == old(self).curr_file(),
            final(self).curr_image() == old(self).curr_image(),
            final(self).last_req_id() == old(self).last_req_id(),
            match old(self).filter_state() {
                ActionState::InputGiven(inp) => final(self).filter_state() matches ActionState::OutputReady(
                    out,
                ) && out@ == supported_indices(inp@),
                _ => final(self).filter_state() == old(self).filter_state(),
            },
    {
        if let Some(input) = self.filter_action.take_input() {
            let out = get_action(&input);
            self.filter_action.finish(out);
        }
    }
}

impl Directory {
    /// Reads a folder listing in: numbers its files and links, sorts them by name,
    /// makes the first image current and starts sorting out the images.
    fn collect_directory(&mut self, entries: Vec<ListedEntry>) -> (r: Result<(), Error>)
        requires
            old(self).wf(),
            ids_fit(*old(self), Ok(entries)),
        ensures
            final(self).wf(),
            final(self).path_view() == old(self).path_view(),
            collect_outcome(*old(self), *final(self), Ok(entries), r),
    {
        let ghost listed = listed_files(entries@, self.current_req_id as int);
        let ghost start_id = self.current_req_id;
        let mut dir_files: Vec<DirItem> = Vec::new();
        let mut i: usize = 0;
        while i < entries.len()
            invariant
                i <= entries.len(),
                start_id == old(self).current_req_id,
                listed == listed_files(entries@, start_id as int),
                start_id + listed.len() <= u32::MAX,
                dir_files@ == listed_files(entries@.take(i as int), start_id as int),
                self.current_req_id == start_id + dir_files.len(),
                self.path == old(self).path,
                self.files == old(self).files,
                self.img_i_to_file_i == old(self).img_i_to_file_i,
                self.file_i_to_img_i == old(self).file_i_to_img_i,
                self.curr_file_idx == old(self).curr_file_idx,
                self.curr_image_idx == old(self).curr_image_idx,
                self.filter_action == old(self).filter_action,
            decreases entries.len() - i,
        {
            assert(entries@.take(i + 1).drop_last() =~= entries@.take(i as int));
            assert(entries@.take(i + 1).last() == entries@[i as int]);
            proof {
                lemma_listed_prefix(entries@, start_id as int, i + 1);
            }
            if entries[i].is_file_or_symlink {
                self.current_req_id = self.current_req_id + 1;
                let item = DirItem {
                    path: entries[i].path.clone(),
                    file_name: entries[i].file_name.clone(),
                    request_id: self.current_req_id,
                    modified: entries[i].modified,
                };
                dir_files.push(item);
            }
            i = i + 1;
        }
        assert(entries@.take(entries.len() as int) =~= entries@);
        let mut j: usize = 0;
        let mut long_name: Option<usize> = None;
        while j < dir_files.len()
            invariant
                j <= dir_files.len(),
                dir_files@ == listed,
                old(self).wf(),
                listed == listed_files(entries@, start_id as int),
                start_id == old(self).current_req_id,
                self.current_req_id == start_id + listed.len(),
                self.path == old(self).path,
                self.files == old(self).files,
                self.img_i_to_file_i == old(self).img_i_to_file_i,
                self.file_i_to_img_i == old(self).file_i_to_img_i,
                self.curr_file_idx == old(self).curr_file_idx,
                self.curr_image_idx == old(self).curr_image_idx,
                self.filter_action == old(self).filter_action,
                long_name matches Some(b) ==> b < j && !comparable_name(dir_files@[b as int].file_name@),
                forall|k: int|
                    0 <= k < j && long_name != Some(k as usize) ==> comparable_name(
                        #[trigger] dir_files@[k].file_name@,
                    ),
            decreases dir_files.len() - j,
        {
            if !name_is_comparable(dir_files[j].file_name.as_str()) {
                match long_name {
                    Some(b) => {
                        assert(!comparable_name(listed[b as int].file_name@));
                        assert(!comparable_name(listed[j as int].file_name@));
                        assert(!names_comparable(listed));
                        return Err(
                            Error::Other("Two file names hold numbers too long to compare".to_owned()),
                        );
                    },
                    None => {
                        long_name = Some(j);
                    },
                }
            }
            j = j + 1;
        }
        assert forall|a: int, b: int| 0 <= a < b < listed.len() implies comparable_name(
            #[trigger] listed[a].file_name@,
        ) || comparable_name(#[trigger] listed[b].file_name@) by {
            if long_name != Some(a as usize) {
                assert(comparable_name(dir_files@[a].file_name@));
            } else {
                assert(long_name != Some(b as usize));
                assert(comparable_name(dir_files@[b].file_name@));
            }
        }
        assert(names_comparable(listed));
        let sorted = sort_by_name(dir_files);
        let mut k: usize = 0;
        let mut found = false;
        while k < sorted.len() && !found
            invariant
                k <= sorted.len(),
                !found ==> first_supported(sorted@) == first_supported_from(sorted@, k as int),
                !found ==> self.curr_file_idx == old(self).curr_file_idx,
                found ==> first_supported(sorted@) == Some(k as int) && self.curr_file_idx == k,
                self.path == old(self).path,
                self.current_req_id == old(self).current_req_id + listed.len(),
                self.curr_image_idx == old(self).curr_image_idx,
                self.filter_action == old(self).filter_action,
            decreases sorted.len() - k + (if found { 0int } else { 1int }),
        {
            if is_file_supported(sorted[k].file_name.as_str()) {
                self.curr_file_idx = k;
                found = true;
            } else {
                k = k + 1;
            }
        }
        let input = sorted.clone();
        assert(input@ =~= sorted@);
        assert(self.filter_state() == old(self).filter_state());
        let _refused = self.filter_action.give_input(input);
        self.img_i_to_file_i.clear();
        self.file_i_to_img_i.clear();
        self.files = sorted;
        assert(image_slots(Seq::<usize>::empty()) =~= Seq::<Option<u32>>::empty());
        assert(self.files@.to_multiset() == listed.to_multiset());
        assert(self.current_req_id == old(self).current_req_id + listed.len());
        assert(self.curr_file_idx == (match first_supported(self.files@) {
            Some(i) => i as usize,
            None => old(self).curr_file_idx,
        }));
        assert(collected(*old(self), *self, entries@));
        Ok(())
    }
}

proof fn lemma_listed_prefix(entries: Seq<ListedEntry>, last_id: int, n: int)
    requires
        0 <= n <= entries.len(),
    ensures
        listed_files(entries.take(n), last_id).len() <= listed_files(entries, last_id).len(),
    decreases entries.len(),
{
    if n < entries.len() {
        assert(entries.drop_last().take(n) =~= entries.take(n));
        lemma_listed_prefix(entries.drop_last(), last_id, n);
    } else {
        assert(entries.take(n) =~= entries);
    }
}

/// All that a directory shows is the same in `a` and `b`.
pub open spec fn same_state(a: Directory, b: Directory) -> bool {
    &&& a.path_view() == b.path_view()
    &&& same_but_path(a, b)
}

/// `post` is `pre` with the file `f` and the image index `img` made current.
pub open spec fn moved_to(pre: Directory, post: Directory, f: int, img: int) -> bool {
    &&& post.path_view() == pre.path_view()
    &&& post.files() == pre.files()
    &&& post.last_req_id() == pre.last_req_id()
    &&& post.image_files() == pre.image_files()
    &&& post.slots() == pre.slots()
    &&& post.filter_state() == pre.filter_state()
    &&& post.curr_file() == f
    &&& post.curr_image() == img
}

/// Making the file `f` current, taking its image index from the slots, then taking
/// a ready filter output.
pub open spec fn selected_file(pre: Directory, post: Directory, f: int) -> bool {
    let img = image_index_after(pre.slots(), f, pre.curr_image());
    &&& post.path_view() == pre.path_view()
    &&& post.files() == pre.files()
    &&& post.last_req_id() == pre.last_req_id()
    &&& post.curr_file() == f
    &&& match pre.filter_state() {
        ActionState::OutputReady(out) => {
            &&& post.image_files() == out@
            &&& post.slots() == image_slots(out@)
            &&& post.filter_state() is Ready
            &&& post.curr_image() == image_index_after(image_slots(out@), f, img)
        },
        _ => {
            &&& post.image_files() == pre.image_files()
            &&& post.slots() == pre.slots()
            &&& post.filter_state() == pre.filter_state()
            &&& post.curr_image() == img
        },
    }
}

/// The message for a file missing from a folder.
pub open spec fn not_found_message(name: Seq<char>, path: Seq<char>) -> Seq<char> {
    "Could not find file \""@ + name + "\" in directory \""@ + path + "\""@
}

/// The file made current when the folder is read again: the file of the same name,
/// else the first image at or after the previous position, else the first file when the
/// previous position is past the end.
pub open spec fn updated_current(files: Seq<DirItem>, name: Seq<char>, prev: int, now: int) -> int {
    match first_named(files, name) {
        Some(i) => i,
        None => match first_supported_from(files, prev) {
            Some(i) => i,
            None => if files.len() <= now && files.len() > 0 {
                0
            } else {
                now
            },
        },
    }
}

impl Directory {
    /// Whether taking the ready filter output now would fail: the current file is not
    /// an image and lies before the last image, so it has no image index.
    pub fn filter_would_panic(&self) -> (r: bool)
        requires
            self.wf(),
        ensures
            r == check_panics(*self, self.curr_file() as int),
    {
        self.filter_would_panic_at(self.curr_file_idx)
    }

    /// Whether taking the ready filter output with the file `f` current would fail.
    fn filter_would_panic_at(&self, f: usize) -> (r: bool)
        requires
            self.wf(),
        ensures
            r == check_panics(*self, f as int),
    {
        match self.filter_action.output() {
            Some(out) => {
                assert(self.files@.len() == self.files.len());
                proof {
                    lemma_supported_indices(self.files@);
                    lemma_image_slots(out@);
                }
                if f >= self.files.len() {
                    proof {
                        if out@.len() > 0 {
                            assert(out@.last() < self.files@.len());
                        }
                    }
                    false
                } else if is_file_supported(self.files[f].file_name.as_str()) {
                    proof {
                        let k = choose|k: int| 0 <= k < out@.len() && out@[k] == f;
                        assert(image_slots(out@)[f as int] == Some(k as u32));
                    }
                    false
                } else {
                    proof {
                        assert forall|k: int| 0 <= k < out@.len() implies out@[k] != f by {
                            assert(supported_item(self.files@[out@[k] as int]));
                        };
                    }
                    if out.len() > 0 && out[out.len() - 1] > f {
                        proof {
                            lemma_image_slots_gap(out@, f as int);
                        }
                        true
                    } else {
                        false
                    }
                }
            },
            None => false,
        }
    }

    /// Whether making the file named `name` current, in this folder, would fail: it has
    /// no image index, or taking the ready filter output with it current would fail.
    pub fn select_would_panic(&self, name: &str) -> (r: bool)
        requires
            self.wf(),
        ensures
            r == (match first_named(self.files(), name@) {
                Some(f) => slot_panics(self.slots(), f) || check_panics(*self, f),
                None => false,
            }),
    {
        let n = name.to_owned();
        match self.find_named(&n) {
            Some(f) => {
                let slot_missing = f < self.file_i_to_img_i.len() && self.file_i_to_img_i[f].is_none();
                slot_missing || self.filter_would_panic_at(f)
            },
            None => false,
        }
    }

    /// Whether the folder is known to hold no image: its filter has finished (its output
    /// taken or ready) with no image.
    pub fn known_empty(&self) -> (r: bool)
        ensures
            r == (filter_done(*self) && images_after_check(*self).len() == 0),
    {
        match self.filter_action.output() {
            Some(out) => out.len() == 0,
            None => self.filter_action.is_ready() && self.img_i_to_file_i.len() == 0,
        }
    }

    /// Whether numbering the files of `listing` stays within the request ids.
    pub fn listing_fits(&self, listing: &Result<Vec<ListedEntry>, String>) -> (r: bool)
        ensures
            r == ids_fit(*self, *listing),
    {
        match listing {
            Ok(entries) => {
                let mut count: u64 = 0;
                let mut i: usize = 0;
                while i < entries.len()
                    invariant
                        0 <= i <= entries.len(),
                        count == listed_files(entries@.take(i as int), self.current_req_id as int).len(),
                        count <= i,
                    decreases entries.len() - i,
                {
                    proof {
                        assert(entries@.take(i + 1).drop_last() =~= entries@.take(i as int));
                        lemma_listed_len(entries@.take(i + 1), self.current_req_id as int);
                        lemma_listed_len(entries@.take(i as int), self.current_req_id as int);
                    }
                    if entries[i].is_file_or_symlink {
                        count = count + 1;
                    }
                    i = i + 1;
                }
                assert(entries@.take(entries.len() as int) =~= entries@);
                count <= 0xffff_ffffu64 - (self.current_req_id as u64)
            },
            Err(_) => true,
        }
    }

    /// The path of the folder.
    pub fn path(&self) -> (r: &str)
        ensures
            r@ == self.path_view(),
    {
        self.path.as_str()
    }

    /// Changes to the folder `path`, reading in `listing`, its listing, when it is not
    /// the current folder already (the listing is not used then).
    pub fn change_directory(&mut self, path: &str, listing: Result<Vec<ListedEntry>, String>) -> (r:
        Result<(), Error>)
        requires
            old(self).wf(),
            old(self).path_view() != path@ ==> ids_fit(*old(self), listing),
        ensures
            final(self).wf(),
            changed_directory(*old(self), *final(self), path@, listing, r),
    {
        let p = path.to_owned();
        if self.path != p {
            self.path = p;
            match listing {
                Ok(entries) => self.collect_directory(entries),
                Err(msg) => Err(Error::Other(msg)),
            }
        } else {
            Ok(())
        }
    }

    /// The index of the first file named `name`, if any.
    fn find_named(&self, name: &String) -> (r: Option<usize>)
        ensures
            r matches Some(j) ==> first_named(self.files(), name@) == Some(j as int) && j
                < self.files().len(),
            r is None ==> first_named(self.files(), name@) is None,
    {
        let mut i: usize = 0;
        assert(self.files@.skip(0) =~= self.files@);
        proof {
            lemma_first_named_range(self.files@, name@);
        }
        while i < self.files.len()
            invariant
                i <= self.files.len(),
                first_named(self.files@, name@) == (match first_named(self.files@.skip(i as int), name@) {
                    Some(j) => Some(j + i),
                    None => None::<int>,
                }),
            decreases self.files.len() - i,
        {
            assert(self.files@.skip(i as int)[0] == self.files@[i as int]);
            assert(self.files@.skip(i as int).drop_first() =~= self.files@.skip(i + 1));
            if self.files[i].file_name == *name {
                return Some(i);
            }
            i = i + 1;
        }
        assert(self.files@.skip(i as int) =~= Seq::<DirItem>::empty());
        None
    }

    /// Changes to the folder `path` (reading in `listing` when it is another folder)
    /// and makes the file named `filename` current.
    pub fn change_directory_with_filename(
        &mut self,
        path: &str,
        listing: Result<Vec<ListedEntry>, String>,
        filename: &str,
    ) -> (r: Result<(), Error>)
        requires
            old(self).wf(),
            old(self).path_view() != path@ ==> ids_fit(*old(self), listing),
            old(self).path_view() == path@ ==> match first_named(old(self).files(), filename@) {
                Some(f) => !slot_panics(old(self).slots(), f) && !check_panics(*old(self), f),
                None => true,
            },
        ensures
            final(self).wf(),
            file_selected(*old(self), *final(self), path@, listing, filename@, r),
    {
        let ghost lst = listing;
        let changed = self.change_directory(path, listing);
        match changed {
            Err(e) => return Err(e),
            Ok(()) => {},
        }
        let ghost mid = *self;
        assert(changed_directory(*old(self), mid, path@, lst, Ok(())));
        let name = filename.to_owned();
        match self.find_named(&name) {
            Some(index) => {
                proof {
                    if old(self).path_view() == path@ {
                        assert(same_but_path(*old(self), mid));
                        assert(name@ == filename@);
                        assert(mid.files() == old(self).files());
                        assert(first_named(mid.files(), name@) == Some(index as int));
                        assert(first_named(old(self).files(), filename@) == Some(index as int));
                        assert(!slot_panics(old(self).slots(), index as int));
                    } else {
                        match lst {
                            Ok(entries) => {
                                assert(collected(*old(self), mid, entries@));
                                assert(mid.slots().len() == 0);
                            },
                            Err(_) => {
                                assert(false);
                            },
                        }
                    }
                    assert(!slot_panics(mid.slots(), index as int));
                    assert(!check_panics(mid, index as int));
                }
                self.curr_file_idx = index;
                self.set_image_index_from_file_index();
                self.check_filter_ready();
                Ok(())
            },
            None => {
                let m1 = concat_str("Could not find file \"", filename);
                let m2 = concat_str(m1.as_str(), "\" in directory \"");
                let m3 = concat_str(m2.as_str(), path);
                let m4 = concat_str(m3.as_str(), "\"");
                Err(Error::Other(m4))
            },
        }
    }
}

/// The image list once a ready filter output is taken.
pub open spec fn images_after_check(d: Directory) -> Seq<usize> {
    match d.filter_state() {
        ActionState::OutputReady(out) => out@,
        _ => d.image_files(),
    }
}

impl Directory {
    /// The name of the current file, empty when there is none.
    pub fn curr_filename(&self) -> (r: String)
        ensures
            r@ == curr_name(*self),
    {
        if self.curr_file_idx < self.files.len() {
            self.files[self.curr_file_idx].file_name.clone()
        } else {
            String::new()
        }
    }

    /// The current file, if the current index is a file of the folder.
    pub fn curr_descriptor(&self) -> (r: Option<&DirItem>)
        ensures
            r == (if self.curr_file() < self.files().len() {
                Some(&self.files()[self.curr_file() as int])
            } else {
                None
            }),
    {
        if self.curr_file_idx < self.files.len() {
            Some(&self.files[self.curr_file_idx])
        } else {
            None
        }
    }

    /// Makes the `index`th image current. Fails while the folder is still being
    /// filtered, and for an index past the images.
    pub fn set_curr_img_index(&mut self, index: usize) -> (r: Result<(), Error>)
        requires
            old(self).wf(),
            !check_panics(*old(self), old(self).curr_file() as int),
        ensures
            final(self).wf(),
            index_set(*old(self), *final(self), index as int, r),
    {
        let ready = self.check_filter_ready();
        let ghost mid = *self;
        assert(filter_checked(*old(self), mid));
        if !ready {
            return Err(Error::WaitingOnFolderFilter);
        }
        if index < self.img_i_to_file_i.len() {
            let file_idx = self.img_i_to_file_i[index];
            if file_idx < self.files.len() {
                self.curr_file_idx = file_idx;
                self.curr_image_idx = index;
                proof {
                    lemma_supported_indices(self.files@);
                }
                return Ok(());
            }
        }
        Err(Error::Other("Could not find image index".to_owned()))
    }

    /// Moves to the next image, wrapping around; stays when there is no other image.
    pub fn jump_to_next(&mut self)
        requires
            old(self).wf(),
        ensures
            final(self).wf(),
            match next_image(old(self).files(), old(self).curr_file() as int) {
                Some(i) => moved_to(
                    *old(self),
                    *final(self),
                    i,
                    image_index_after(old(self).slots(), i, old(self).curr_image()) as int,
                ),
                None => same_state(*old(self), *final(self)),
            },
    {
        let len = self.files.len();
        if len == 0 {
            return;
        }
        let start = self.curr_file_idx % len;
        let mut k: usize = 1;
        while k < len
            invariant
                1 <= k <= len,
                len == self.files.len(),
                start < len,
                start == old(self).curr_file() as int % (len as int),
                *self == *old(self),
                old(self).wf(),
                scan_forward(self.files@, start as int, 1) == scan_forward(
                    self.files@,
                    start as int,
                    k as int,
                ),
            decreases len - k,
        {
            let i: usize = if k < len - start { start + k } else { k - (len - start) };
            assert(i as int == wrap(start + k, len as int));
            if is_file_supported(self.files[i].file_name.as_str()) {
                proof {
                    lemma_image_has_slot(*self, i as int);
                }
                self.curr_file_idx = i;
                self.set_image_index_from_file_index();
                return;
            }
            k = k + 1;
        }
    }

    /// Moves to the previous image, wrapping around; stays when there is no other
    /// image. The current index must be a file of the folder.
    pub fn jump_to_prev(&mut self)
        requires
            old(self).wf(),
            old(self).curr_file() < old(self).files().len(),
        ensures
            final(self).wf(),
            match prev_image(old(self).files(), old(self).curr_file() as int) {
                Some(i) => moved_to(
                    *old(self),
                    *final(self),
                    i,
                    image_index_after(old(self).slots(), i, old(self).curr_image()) as int,
                ),
                None => same_state(*old(self), *final(self)),
            },
    {
        let len = self.files.len();
        let cur = self.curr_file_idx;
        let mut k: usize = 1;
        while k < len
            invariant
                1 <= k <= len,
                len == self.files.len(),
                cur < len,
                cur == old(self).curr_file(),
                *self == *old(self),
                old(self).wf(),
                scan_backward(self.files@, cur as int, 1) == scan_backward(
                    self.files@,
                    cur as int,
                    k as int,
                ),
            decreases len - k,
        {
            let i: usize = if k <= cur { cur - k } else { len - (k - cur) };
            assert(i as int == wrap(cur + len - k, len as int));
            if is_file_supported(self.files[i].file_name.as_str()) {
                proof {
                    lemma_image_has_slot(*self, i as int);
                }
                self.curr_file_idx = i;
                self.set_image_index_from_file_index();
                return;
            }
            k = k + 1;
        }
    }

    /// The current image index, `None` while the folder is still being filtered.
    pub fn curr_img_index(&mut self) -> (r: Option<usize>)
        requires
            old(self).wf(),
            !check_panics(*old(self), old(self).curr_file() as int),
        ensures
            final(self).wf(),
            filter_checked(*old(self), *final(self)),
            r == (if filter_done(*old(self)) {
                Some(final(self).curr_image())
            } else {
                None
            }),
    {
        if !self.check_filter_ready() {
            return None;
        }
        Some(self.curr_image_idx)
    }

    /// The number of images in the folder, `None` while it is still being filtered.
    pub fn image_count(&mut self) -> (r: Option<usize>)
        requires
            old(self).wf(),
            !check_panics(*old(self), old(self).curr_file() as int),
        ensures
            final(self).wf(),
            filter_checked(*old(self), *final(self)),
            r == (if filter_done(*old(self)) {
                Some(final(self).image_files().len() as usize)
            } else {
                None
            }),
    {
        if !self.check_filter_ready() {
            return None;
        }
        Some(self.img_i_to_file_i.len())
    }

    /// The `idx`th image, `None` while the folder is still being filtered or past the
    /// images.
    pub fn image_by_index(&mut self, idx: usize) -> (r: Option<&DirItem>)
        requires
            old(self).wf(),
            !check_panics(*old(self), old(self).curr_file() as int),
        ensures
            final(self).wf(),
            filter_checked(*old(self), *final(self)),
            r == (if filter_done(*old(self)) && idx < final(self).image_files().len() {
                Some(&final(self).files()[final(self).image_files()[idx as int] as int])
            } else {
                None
            }),
    {
        if !self.check_filter_ready() {
            return None;
        }
        if idx < self.img_i_to_file_i.len() {
            assert(self.files@.len() == self.files.len());
            proof {
                lemma_supported_indices(self.files@);
            }
            let i = self.img_i_to_file_i[idx];
            Some(&self.files[i])
        } else {
            None
        }
    }
}

impl Directory {
    /// The index of the first image at or after `from`, if any.
    fn find_supported_from(&self, from: usize) -> (r: Option<usize>)
        ensures
            r matches Some(j) ==> first_supported_from(self.files(), from as int) == Some(j as int)
                && j < self.files().len(),
            r is None ==> first_supported_from(self.files(), from as int) is None,
    {
        let mut i: usize = from;
        while i < self.files.len()
            invariant
                from <= i,
                first_supported_from(self.files@, from as int) == first_supported_from(
                    self.files@,
                    i as int,
                ),
            decreases self.files.len() - i,
        {
            if is_file_supported(self.files[i].file_name.as_str()) {
                return Some(i);
            }
            i = i + 1;
        }
        None
    }

    /// Reads the folder again from `listing`. Keeps the current file if it is still
    /// there; otherwise makes current the first image at or after its position, or the
    /// first file when that position is past the end.
    pub fn update_directory(&mut self, listing: Result<Vec<ListedEntry>, String>) -> (r: Result<
        (),
        Error,
    >)
        requires
            old(self).wf(),
            ids_fit(*old(self), listing),
        ensures
            final(self).wf(),
            final(self).path_view() == old(self).path_view(),
            directory_updated(*old(self), *final(self), listing, r),
    {
        let curr_filename = self.curr_filename();
        let curr_index = self.curr_file_idx;
        let ghost lst = listing;
        let collected_r = match listing {
            Ok(entries) => self.collect_directory(entries),
            Err(msg) => Err(Error::Other(msg)),
        };
        match collected_r {
            Err(e) => return Err(e),
            Ok(()) => {},
        }
        let ghost mid = *self;
        assert(collect_outcome(*old(self), mid, lst, Ok(())));
        proof {
            match lst {
                Ok(entries) => {
                    assert(collected(*old(self), mid, entries@));
                },
                Err(_) => {
                    assert(false);
                },
            }
        }
        if let Some(index) = self.find_named(&curr_filename) {
            self.curr_file_idx = index;
            self.set_image_index_from_file_index();
            self.check_filter_ready();
            return Ok(());
        }
        if let Some(index) = self.find_supported_from(curr_index) {
            self.curr_file_idx = index;
            self.set_image_index_from_file_index();
            self.check_filter_ready();
            return Ok(());
        }
        if self.files.len() <= self.curr_file_idx && self.files.len() > 0 {
            self.curr_file_idx = 0;
        }
        Ok(())
    }
}

/// Sorts a listing into images and other files: the indices of its images, in order.
pub fn get_action(input: &Vec<DirItem>) -> (r: Vec<usize>)
    ensures
        r@ == supported_indices(input@),
{
    let mut r: Vec<usize> = Vec::new();
    let mut i: usize = 0;
    while i < input.len()
        invariant
            i <= input.len(),
            r@ == supported_indices(input@.take(i as int)),
        decreases input.len() - i,
    {
        assert(input@.take(i + 1).drop_last() =~= input@.take(i as int));
        assert(input@.take(i + 1).last() == input@[i as int]);
        if is_file_supported(input[i].file_name.as_str()) {
            r.push(i);
        }
        i = i + 1;
    }
    assert(input@.take(input.len() as int) =~= input@);
    r
}

/// Where a forward scan stops: at the `k0`th file from `c`, an image, with no image
/// between.
proof fn lemma_scan_forward_found(files: Seq<DirItem>, c: int, k: int) -> (k0: int)
    requires
        0 <= c < files.len(),
        1 <= k,
        scan_forward(files, c, k) is Some,
    ensures
        k <= k0 < files.len(),
        scan_forward(files, c, k) == Some(wrap(c + k0, files.len() as int)),
        supported_item(files[wrap(c + k0, files.len() as int)]),
        forall|j: int| k <= j < k0 ==> !supported_item(#[trigger] files[wrap(c + j, files.len() as int)]),
    decreases files.len() - k,
{
    if supported_item(files[wrap(c + k, files.len() as int)]) {
        k
    } else {
        lemma_scan_forward_found(files, c, k + 1)
    }
}

/// A forward scan that finds nothing passed no image.
proof fn lemma_scan_forward_none(files: Seq<DirItem>, c: int, k: int)
    requires
        0 <= c < files.len(),
        1 <= k,
        scan_forward(files, c, k) is None,
    ensures
        forall|j: int| k <= j < files.len() ==> !supported_item(#[trigger] files[wrap(c + j, files.len() as int)]),
    decreases files.len() - k,
{
    if k < files.len() {
        lemma_scan_forward_none(files, c, k + 1);
    }
}

/// A backward scan stops at the first image it meets.
proof fn lemma_scan_backward_hits(files: Seq<DirItem>, n: int, k: int, k0: int)
    requires
        0 <= n < files.len(),
        1 <= k <= k0 < files.len(),
        supported_item(files[wrap(n + files.len() - k0, files.len() as int)]),
        forall|j: int| k <= j < k0 ==> !supported_item(#[trigger] files[wrap(n + files.len() - j, files.len() as int)]),
    ensures
        scan_backward(files, n, k) == Some(wrap(n + files.len() - k0, files.len() as int)),
    decreases k0 - k,
{
    if k < k0 {
        assert(!supported_item(files[wrap(n + files.len() - k, files.len() as int)]));
        lemma_scan_backward_hits(files, n, k + 1, k0);
    }
}

/// A backward scan over no image finds nothing.
proof fn lemma_scan_backward_none(files: Seq<DirItem>, n: int, k: int)
    requires
        0 <= n < files.len(),
        1 <= k,
        forall|j: int| k <= j < files.len() ==> !supported_item(#[trigger] files[wrap(n + files.len() - j, files.len() as int)]),
    ensures
        scan_backward(files, n, k) is None,
    decreases files.len() - k,
{
    if k < files.len() {
        assert(!supported_item(files[wrap(n + files.len() - k, files.len() as int)]));
        lemma_scan_backward_none(files, n, k + 1);
    }
}

/// The next image is an image.
pub proof fn lemma_next_image_is_image(files: Seq<DirItem>, cur: int)
    requires
        0 <= cur < files.len(),
    ensures
        next_image(files, cur) matches Some(n) ==> 0 <= n < files.len() && supported_item(files[n]),
{
    assert(cur % (files.len() as int) == cur) by (nonlinear_arith)
        requires 0 <= cur < files.len();
    if next_image(files, cur) is Some {
        lemma_scan_forward_found(files, cur, 1);
    }
}

/// The previous image of a file of the folder is a file of the folder.
pub proof fn lemma_prev_image_in_range(files: Seq<DirItem>, cur: int)
    requires
        0 <= cur < files.len(),
    ensures
        prev_image(files, cur) matches Some(n) ==> 0 <= n < files.len() && supported_item(files[n]),
{
    lemma_scan_backward_in_range(files, cur, 1);
}

proof fn lemma_scan_backward_in_range(files: Seq<DirItem>, cur: int, k: int)
    requires
        0 <= cur < files.len(),
    ensures
        scan_backward(files, cur, k) matches Some(n) ==> 0 <= n < files.len() && supported_item(files[n]),
    decreases files.len() - k,
{
    if !(k < 1 || k >= files.len()) {
        lemma_scan_backward_in_range(files, cur, k + 1);
    }
}

/// Stepping to the next image and back to the previous one returns to an image one
/// started from; when there is no other image, there is no previous one either.
pub proof fn lemma_next_then_prev(files: Seq<DirItem>, cur: int)
    requires
        0 <= cur < files.len(),
        supported_item(files[cur]),
    ensures
        match next_image(files, cur) {
            Some(n) => prev_image(files, n) == Some(cur),
            None => prev_image(files, cur) is None,
        },
{
    let len = files.len() as int;
    assert(cur % len == cur) by (nonlinear_arith)
        requires 0 <= cur < len;
    if next_image(files, cur) is Some {
        let k0 = lemma_scan_forward_found(files, cur, 1);
        let n = wrap(cur + k0, len);
        assert(wrap(n + len - k0, len) == cur);
        assert forall|j: int| 1 <= j < k0 implies !supported_item(#[trigger] files[wrap(n + len - j, len)]) by {
            assert(wrap(n + len - j, len) == wrap(cur + (k0 - j), len));
            assert(!supported_item(files[wrap(cur + (k0 - j), len)]));
        }
        lemma_scan_backward_hits(files, n, 1, k0);
    } else {
        lemma_scan_forward_none(files, cur, 1);
        assert forall|j: int| 1 <= j < len implies !supported_item(#[trigger] files[wrap(cur + len - j, len)]) by {
            assert(wrap(cur + len - j, len) == wrap(cur + (len - j), len));
            assert(!supported_item(files[wrap(cur + (len - j), len)]));
        }
        lemma_scan_backward_none(files, cur, 1);
    }
}

} // verus!
