//! The image cache: the images of the open folder, loaded in the background and
//! kept within a memory budget.

pub mod directory;
pub mod image_loader;
pub mod name_order;
pub mod pending_requests;
pub mod cache;

use vstd::prelude::*;
use crate::image_cache::image_loader::Orientation;

verus! {

/// The estimated memory use of a `width` by `height` image, in bytes: four bytes a
/// pixel, and half as much again for the mipmaps of its texture.
pub open spec fn image_size(width: u32, height: u32) -> int {
    width * height * 6
}

/// The estimate fits the 32-bit arithmetic it is computed in.
pub open spec fn size_fits(width: u32, height: u32) -> bool {
    image_size(width, height) <= u32::MAX
}

/// The estimated memory use of a `width` by `height` image, in bytes.
pub fn get_image_size_estimate(width: u32, height: u32) -> (r: isize)
    requires
        size_fits(width, height),
        image_size(width, height) <= isize::MAX,
    ensures
        r == image_size(width, height),
{
    assert(width * height <= width * height * 6) by (nonlinear_arith);
    let s = width * height * 6;
    s as isize
}

/// The estimate of an image whose estimate fits, in a wider integer.
fn size_estimate_wide(width: u32, height: u32) -> (r: i128)
    requires
        size_fits(width, height),
    ensures
        r == image_size(width, height),
        0 <= r <= u32::MAX,
{
    assert(width * height <= width * height * 6) by (nonlinear_arith);
    let s: u32 = width * height * 6;
    s as i128
}

/// A frame of an image or animation: the decoded image, its size in pixels, how long
/// it is shown, and how it is to be rotated.
pub struct AnimationFrameTexture<F> {
    pub image: F,
    pub width: u32,
    pub height: u32,
    pub delay_nano: u64,
    pub orientation: Orientation,
}

impl<F: Clone> Clone for AnimationFrameTexture<F> {
    fn clone(&self) -> (r: Self)
        ensures
            cloned::<F>(self.image, r.image),
            r.width == self.width,
            r.height == self.height,
            r.delay_nano == self.delay_nano,
            r.orientation == self.orientation,
    {
        AnimationFrameTexture {
            image: self.image.clone(),
            width: self.width,
            height: self.height,
            delay_nano: self.delay_nano,
            orientation: self.orientation,
        }
    }
}

/// The width and height of a frame as shown, after its rotation.
pub open spec fn oriented(width: u32, height: u32, orientation: Orientation) -> (u32, u32) {
    match orientation {
        Orientation::Deg0 | Orientation::Deg180 => (width, height),
        Orientation::Deg90 | Orientation::Deg270 => (height, width),
    }
}

impl<F> AnimationFrameTexture<F> {
    /// The width and height of the frame as shown, after its rotation.
    pub fn oriented_dimensions(&self) -> (r: (u32, u32))
        ensures
            r == oriented(self.width, self.height, self.orientation),
    {
        match self.orientation {
            Orientation::Deg0 | Orientation::Deg180 => (self.width, self.height),
            Orientation::Deg90 | Orientation::Deg270 => (self.height, self.width),
        }
    }
}

/// The longest frame delay handled, in nanoseconds (about 146 years).
pub const MAX_FRAME_DELAY_NANOS: u64 = 0x3fff_ffff_ffff_ffff;

/// A frame whose size estimate fits 32-bit arithmetic, shown no longer than
/// `MAX_FRAME_DELAY_NANOS`.
pub open spec fn frame_fits(width: u32, height: u32, delay_nano: u64) -> bool {
    size_fits(width, height) && delay_nano <= MAX_FRAME_DELAY_NANOS
}

/// Every frame fits.
pub open spec fn frames_fit<F>(frames: Seq<AnimationFrameTexture<F>>) -> bool {
    forall|i: int| 0 <= i < frames.len() ==> #[trigger] frame_fits(frames[i].width, frames[i].height, frames[i].delay_nano)
}

/// The estimated memory use of all the frames, in bytes.
pub open spec fn anim_size<F>(frames: Seq<AnimationFrameTexture<F>>) -> int
    decreases frames.len(),
{
    if frames.len() == 0 {
        0
    } else {
        anim_size(frames.drop_last()) + image_size(frames.last().width, frames.last().height)
    }
}

proof fn lemma_anim_size_bounds<F>(frames: Seq<AnimationFrameTexture<F>>)
    requires
        frames_fit(frames),
    ensures
        0 <= anim_size(frames) <= frames.len() * u32::MAX,
    decreases frames.len(),
{
    if frames.len() > 0 {
        assert(frame_fits(frames[frames.len() - 1].width, frames[frames.len() - 1].height, frames[frames.len() - 1].delay_nano));
        assert(image_size(frames.last().width, frames.last().height) >= 0) by (nonlinear_arith);
        assert forall|i: int| 0 <= i < frames.drop_last().len() implies #[trigger] frame_fits(
            frames.drop_last()[i].width,
            frames.drop_last()[i].height,
            frames.drop_last()[i].delay_nano,
        ) by {
            assert(frames.drop_last()[i] == frames[i]);
        };
        lemma_anim_size_bounds(frames.drop_last());
    }
}

/// The estimated memory use of all the frames of an animation, in bytes.
pub fn get_anim_size_estimate<F>(frames: &[AnimationFrameTexture<F>]) -> (r: i128)
    requires
        frames_fit(frames@),
    ensures
        r == anim_size(frames@),
        0 <= r <= frames@.len() * u32::MAX,
{
    let mut sum: i128 = 0;
    let mut i: usize = 0;
    while i < frames.len()
        invariant
            0 <= i <= frames.len(),
            frames_fit(frames@),
            sum == anim_size(frames@.take(i as int)),
            0 <= sum <= i * u32::MAX,
        decreases frames.len() - i,
    {
        assert(frames@.take(i + 1).drop_last() =~= frames@.take(i as int));
        assert(frame_fits(frames@[i as int].width, frames@[i as int].height, frames@[i as int].delay_nano));
        let s = size_estimate_wide(frames[i].width, frames[i].height);
        assert(i * u32::MAX + u32::MAX == (i + 1) * u32::MAX) by (nonlinear_arith);
        assert((i + 1) * u32::MAX <= usize::MAX * u32::MAX) by (nonlinear_arith)
            requires
                i + 1 <= usize::MAX,
        ;
        sum = sum + s;
        i = i + 1;
    }
    assert(frames@.take(frames@.len() as int) =~= frames@);
    sum
}

/// How far the cache position `i` is from the current image index `c`.
pub open spec fn distance(i: int, c: int) -> int {
    if i >= c {
        i - c
    } else {
        c - i
    }
}

/// The positions `0..n`, each once, by distance from `c`, nearest first; positions at
/// the same distance may come in either order.
pub open spec fn by_distance(order: Seq<int>, n: int, c: int) -> bool {
    &&& order.len() == n
    &&& order.no_duplicates()
    &&& forall|k: int| 0 <= k < n ==> 0 <= #[trigger] order[k] < n
    &&& forall|k1: int, k2: int|
        0 <= k1 < k2 < n ==> distance(#[trigger] order[k1], c) <= distance(#[trigger] order[k2], c)
}

/// Walking `order`, an entry is kept when the capacity left exceeds its size plus
/// `est`, and its size is taken from the capacity: the kept positions and the
/// capacity left.
pub open spec fn greedy_keep(order: Seq<int>, sizes: Seq<i128>, cap: int, est: int) -> (Set<int>, int)
    decreases order.len(),
{
    if order.len() == 0 {
        (Set::empty(), cap)
    } else {
        let prev = greedy_keep(order.drop_last(), sizes, cap, est);
        let s = sizes[order.last()] as int;
        if prev.1 > s + est {
            (prev.0.insert(order.last()), prev.1 - s)
        } else {
            prev
        }
    }
}

/// Which cache entries stay within the capacity `total`: walking the positions nearest
/// to `curr_index` first, an entry stays while the capacity left exceeds its size plus
/// `est`, the estimate of one more image. Returns a flag for each position and the
/// capacity left.
pub fn retained_entries(sizes: &Vec<i128>, curr_index: usize, total: i64, est: i64) -> (r: (
    Vec<bool>,
    i64,
))
    requires
        est >= 0,
        forall|i: int| 0 <= i < sizes.len() ==> 0 <= #[trigger] sizes@[i] <= usize::MAX * u32::MAX,
    ensures
        r.0.len() == sizes.len(),
        exists|order: Seq<int>|
            by_distance(order, sizes.len() as int, curr_index as int) && #[trigger] greedy_keep(
                order,
                sizes@,
                total as int,
                est as int,
            ) == (Set::new(|i: int| 0 <= i < sizes.len() && r.0@[i]), r.1 as int),
{
    let n = sizes.len();
    let c = curr_index;
    let lo = if c < n {
        c
    } else {
        n
    };
    let mut keep: Vec<bool> = Vec::new();
    while keep.len() < n
        invariant
            keep.len() <= n,
            forall|i: int| 0 <= i < keep.len() ==> !keep@[i],
        decreases n - keep.len(),
    {
        keep.push(false);
    }
    let mut a = lo;
    let mut b = lo;
    let mut left: i64 = total;
    let ghost mut order: Seq<int> = Seq::empty();
    assert(Set::new(|i: int| a <= i < b && keep@[i]) =~= Set::<int>::empty());
    while a > 0 || b < n
        invariant
            n == sizes.len(),
            lo == (if c < n { c } else { n }),
            0 <= a <= lo <= b <= n,
            keep.len() == n,
            est >= 0,
            forall|i: int| 0 <= i < sizes.len() ==> 0 <= #[trigger] sizes@[i] <= usize::MAX * u32::MAX,
            forall|i: int| 0 <= i < n && !(a <= i < b) ==> !keep@[i],
            order.len() == b - a,
            order.no_duplicates(),
            forall|k: int| 0 <= k < order.len() ==> a <= #[trigger] order[k] < b,
            forall|x: int| a <= x < b ==> order.contains(x),
            forall|k1: int, k2: int|
                0 <= k1 < k2 < order.len() ==> distance(#[trigger] order[k1], c as int) <= distance(
                    #[trigger] order[k2],
                    c as int,
                ),
            forall|k: int|
                0 <= k < order.len() ==> (a > 0 ==> distance(#[trigger] order[k], c as int) <= distance(
                    a - 1,
                    c as int,
                )) && (b < n ==> distance(order[k], c as int) <= distance(b as int, c as int)),
            greedy_keep(order, sizes@, total as int, est as int) == (
                Set::new(|i: int| a <= i < b && keep@[i]),
                left as int,
            ),
        decreases (n - b) + a,
    {
        let pick_down = if b == n {
            true
        } else if a == 0 {
            false
        } else {
            c - (a - 1) <= b - c
        };
        let pos = if pick_down {
            a - 1
        } else {
            b
        };
        let ghost prev_keep = keep@;
        let ghost prev_order = order;
        let s = sizes[pos];
        if (left as i128) > s + (est as i128) {
            left = ((left as i128) - s) as i64;
            keep.set(pos, true);
        }
        proof {
            order = order.push(pos as int);
            assert(order.drop_last() =~= prev_order);
            assert(order.last() == pos as int);
        }
        if pick_down {
            a = a - 1;
        } else {
            b = b + 1;
        }
        proof {
            assert forall|x: int| a <= x < b implies order.contains(x) by {
                if x == pos {
                    assert(order[order.len() - 1] == x);
                } else {
                    assert(prev_order.contains(x));
                    let k = choose|k: int| 0 <= k < prev_order.len() && prev_order[k] == x;
                    assert(order[k] == x);
                }
            };
            assert forall|k1: int, k2: int| 0 <= k1 < k2 < order.len() implies order[k1] != order[k2] by {
                if k2 == order.len() - 1 {
                    assert(prev_order[k1] == order[k1]);
                } else {
                    assert(prev_order[k1] == order[k1]);
                    assert(prev_order[k2] == order[k2]);
                }
            };
            assert forall|k1: int, k2: int|
                0 <= k1 < k2 < order.len() implies distance(#[trigger] order[k1], c as int) <= distance(
                #[trigger] order[k2],
                c as int,
            ) by {
                assert(prev_order.len() == order.len() - 1);
                if k2 == order.len() - 1 {
                    assert(prev_order[k1] == order[k1]);
                } else {
                    assert(prev_order[k1] == order[k1]);
                    assert(prev_order[k2] == order[k2]);
                }
            };
            assert(Set::new(|i: int| a <= i < b && keep@[i]) =~= (if keep@[pos as int] {
                Set::new(|i: int| a <= i < b && prev_keep[i] && (i != pos)).insert(pos as int)
            } else {
                Set::new(|i: int| a <= i < b && prev_keep[i] && (i != pos))
            }));
        }
    }
    proof {
        assert forall|k: int| 0 <= k < n implies 0 <= #[trigger] order[k] < n by {};
    }
    assert(by_distance(order, n as int, c as int));
    (keep, left)
}

/// Eviction stays within the capacity: the capacity left never exceeds the capacity
/// given, the kept entries are among those walked, and when anything is kept, more than
/// one image estimate is left.
pub proof fn lemma_eviction_within_capacity(order: Seq<int>, sizes: Seq<i128>, cap: int, est: int)
    requires
        est >= 0,
        forall|i: int| 0 <= i < sizes.len() ==> #[trigger] sizes[i] >= 0,
        forall|k: int| 0 <= k < order.len() ==> 0 <= #[trigger] order[k] < sizes.len(),
    ensures
        greedy_keep(order, sizes, cap, est).1 <= cap,
        forall|x: int| #[trigger] greedy_keep(order, sizes, cap, est).0.contains(x) ==> order.contains(x),
        !greedy_keep(order, sizes, cap, est).0.is_empty() ==> greedy_keep(order, sizes, cap, est).1 > est,
    decreases order.len(),
{
    if order.len() > 0 {
        let d = order.drop_last();
        assert forall|k: int| 0 <= k < d.len() implies 0 <= #[trigger] d[k] < sizes.len() by {
            assert(d[k] == order[k]);
        };
        lemma_eviction_within_capacity(d, sizes, cap, est);
        let prev = greedy_keep(d, sizes, cap, est);
        let last = order.last();
        assert(order[order.len() - 1] == last);
        assert(sizes[last] >= 0);
        assert forall|x: int| #[trigger] greedy_keep(order, sizes, cap, est).0.contains(x) implies order.contains(x) by {
            if prev.0.contains(x) {
                let k = choose|k: int| 0 <= k < d.len() && d[k] == x;
                assert(order[k] == x);
            } else {
                assert(x == last);
            }
        };
        if !greedy_keep(order, sizes, cap, est).0.is_empty() && !(prev.1 > sizes[last] + est) {
            assert(greedy_keep(order, sizes, cap, est) == prev);
        }
    } else {
        assert(greedy_keep(order, sizes, cap, est).0 =~= Set::<int>::empty());
    }
}

} // verus!
