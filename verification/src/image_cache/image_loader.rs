//! What the image loader decides without touching a file: which files are images,
//! how an image is oriented, frame delays and mipmap levels.

use vstd::prelude::*;
use crate::text::{ascii_lower, chars_of, is_ascii_text, lemma_ascii_lower_idempotent, lowered, str_to_lowercase, string_from_chars};
use image::ImageFormat as F;

verus! {

/// How much an image needs to be rotated counter-clockwise to be shown correctly.
#[derive(Debug, Clone, Copy, PartialEq, Eq, Structural)]
pub enum Orientation {
    Deg0,
    Deg90,
    Deg180,
    Deg270,
}

impl Orientation {
    /// No rotation.
    pub fn default() -> (r: Orientation)
        ensures
            r == Orientation::Deg0,
    {
        Orientation::Deg0
    }
}

/// The orientation that an EXIF `Orientation` value asks for. The mirrored values
/// (2, 4, 5, 7) are shown with the rotation alone; a value outside 1 to 8 is invalid
/// and leaves the image as it is.
pub open spec fn exif_orientation(value: u16) -> Orientation {
    if value == 3 || value == 4 {
        Orientation::Deg180
    } else if value == 5 || value == 8 {
        Orientation::Deg90
    } else if value == 6 || value == 7 {
        Orientation::Deg270
    } else {
        Orientation::Deg0
    }
}

/// Maps the first EXIF `Orientation` value of an image to its rotation (values 1 to 8,
/// as page 30 of the CIPA DC-008-2012 standard defines them). An image without the
/// value, or with an invalid one, is not rotated.
pub fn orientation_from_exif(value: Option<u16>) -> (r: Orientation)
    ensures
        r == (match value {
            Some(v) => exif_orientation(v),
            None => Orientation::Deg0,
        }),
{
    match value {
        None => Orientation::Deg0,
        Some(v) => {
            if v == 3 || v == 4 {
                Orientation::Deg180
            } else if v == 5 || v == 8 {
                Orientation::Deg90
            } else if v == 6 || v == 7 {
                Orientation::Deg270
            } else {
                Orientation::Deg0
            }
        },
    }
}

/// Whether an EXIF orientation value mirrors the image, which is not supported.
pub fn exif_orientation_is_flipped(value: u16) -> (r: bool)
    ensures
        r == (value == 2 || value == 4 || value == 5 || value == 7),
{
    value == 2 || value == 4 || value == 5 || value == 7
}

/// The index of the last `.` in `s`, if any.
pub open spec fn last_dot(s: Seq<char>) -> Option<int>
    decreases s.len(),
{
    if s.len() == 0 {
        None
    } else if s.last() == '.' {
        Some(s.len() - 1)
    } else {
        last_dot(s.drop_last())
    }
}

/// The extension of a file name (`Path::extension`): the text after the last `.`;
/// none when there is no `.`, when the only `.` starts the name, or for `..`.
pub open spec fn file_extension(name: Seq<char>) -> Option<Seq<char>> {
    if name == seq!['.', '.'] {
        None
    } else {
        match last_dot(name) {
            None => None,
            Some(k) => if k == 0 {
                None
            } else {
                Some(name.skip(k + 1))
            },
        }
    }
}

/// The lowercase extensions of the image formats the viewer opens.
pub open spec fn supported_extension(ext: Seq<char>) -> bool {
    ||| ext == "jpg"@
    ||| ext == "jpeg"@
    ||| ext == "png"@
    ||| ext == "apng"@
    ||| ext == "gif"@
    ||| ext == "webp"@
    ||| ext == "tif"@
    ||| ext == "tiff"@
    ||| ext == "tga"@
    ||| ext == "bmp"@
    ||| ext == "ico"@
    ||| ext == "hdr"@
    ||| ext == "pbm"@
    ||| ext == "pam"@
    ||| ext == "ppm"@
    ||| ext == "pgm"@
}

/// A file of this name is an image the viewer opens: its extension, lowercased, is one
/// of the supported ones.
pub open spec fn is_supported_name(name: Seq<char>) -> bool {
    match file_extension(name) {
        Some(ext) => supported_extension(lowered(ext)),
        None => false,
    }
}

proof fn lemma_last_dot_bounds(s: Seq<char>)
    ensures
        last_dot(s) matches Some(k) ==> 0 <= k < s.len() && s[k] == '.' && forall|j: int|
            k < j < s.len() ==> s[j] != '.',
        last_dot(s) is None ==> forall|j: int| 0 <= j < s.len() ==> s[j] != '.',
    decreases s.len(),
{
    if s.len() > 0 && s.last() != '.' {
        lemma_last_dot_bounds(s.drop_last());
        assert forall|j: int| 0 <= j < s.len() - 1 implies s.drop_last()[j] == s[j] by {}
    }
}

/// The extension of the file name `name`.
pub fn file_extension_of(name: &str) -> (r: Option<Vec<char>>)
    ensures
        match file_extension(name@) {
            Some(ext) => r matches Some(v) && v@ == ext,
            None => r is None,
        },
{
    let cs = chars_of(name);
    proof {
        lemma_last_dot_bounds(cs@);
    }
    if cs.len() == 2 && cs[0] == '.' && cs[1] == '.' {
        assert(cs@ =~= seq!['.', '.']);
        return None;
    }
    let mut i: usize = cs.len();
    assert(cs@.take(cs.len() as int) =~= cs@);
    while i > 0 && cs[i - 1] != '.'
        invariant
            i <= cs.len(),
            cs@ == name@,
            last_dot(cs@) == last_dot(cs@.take(i as int)),
        decreases i,
    {
        assert(cs@.take(i as int).last() == cs@[i - 1]);
        assert(cs@.take(i as int).drop_last() =~= cs@.take(i - 1));
        i = i - 1;
    }
    if i == 0 {
        assert(cs@.take(0) =~= Seq::<char>::empty());
        return None;
    }
    assert(cs@.take(i as int).last() == '.');
    if i == 1 {
        return None;
    }
    let mut ext: Vec<char> = Vec::new();
    let mut j: usize = i;
    while j < cs.len()
        invariant
            i <= j <= cs.len(),
            ext@ == cs@.subrange(i as int, j as int),
        decreases cs.len() - j,
    {
        ext.push(cs[j]);
        assert(cs@.subrange(i as int, j + 1) =~= cs@.subrange(i as int, j as int).push(cs@[j as int]));
        j = j + 1;
    }
    assert(ext@ =~= cs@.skip(i as int));
    Some(ext)
}

/// Whether a file of this name is an image the viewer opens.
pub fn is_file_supported(file_name: &str) -> (r: bool)
    ensures
        r == is_supported_name(file_name@),
{
    match file_extension_of(file_name) {
        None => false,
        Some(ext) => {
            let e = string_from_chars(ext.as_slice());
            let lower = str_to_lowercase(e.as_str());
            lower == "jpg".to_owned() || lower == "jpeg".to_owned() || lower == "png".to_owned()
                || lower == "apng".to_owned() || lower == "gif".to_owned() || lower
                == "webp".to_owned() || lower == "tif".to_owned() || lower == "tiff".to_owned()
                || lower == "tga".to_owned() || lower == "bmp".to_owned() || lower
                == "ico".to_owned() || lower == "hdr".to_owned() || lower == "pbm".to_owned()
                || lower == "pam".to_owned() || lower == "ppm".to_owned() || lower
                == "pgm".to_owned()
        },
    }
}

/// Text-free of `.` adds nothing to where the last `.` is.
proof fn lemma_last_dot_append(s: Seq<char>, t: Seq<char>)
    requires
        !t.contains('.'),
    ensures
        last_dot(s + t) == last_dot(s),
    decreases t.len(),
{
    if t.len() == 0 {
        assert(s + t =~= s);
    } else {
        assert((s + t).drop_last() =~= s + t.drop_last());
        assert(t[t.len() - 1] != '.');
        assert(!t.drop_last().contains('.')) by {
            if t.drop_last().contains('.') {
                let k = choose|k: int| 0 <= k < t.drop_last().len() && t.drop_last()[k] == '.';
                assert(t[k] == '.');
            }
        }
        lemma_last_dot_append(s, t.drop_last());
    }
}

/// A file name made of a non-empty stem, a `.` and an ASCII extension without `.` has
/// that extension, and names an image exactly when the extension, in lowercase, is
/// one of jpg, jpeg, png, apng, gif, webp, tif, tiff, tga, bmp, ico, hdr, pbm, pam, ppm
/// and pgm, whatever the case it is written in (`photo.bmp` and `photo.BMP` alike).
pub proof fn lemma_supported_names(stem: Seq<char>, ext: Seq<char>)
    requires
        stem.len() > 0,
        ext.len() > 0,
        is_ascii_text(ext),
        !ext.contains('.'),
    ensures
        file_extension(stem + seq!['.'] + ext) == Some(ext),
        is_supported_name(stem + seq!['.'] + ext) <==> {
            let e = ascii_lower(ext);
            ||| e == "jpg"@
            ||| e == "jpeg"@
            ||| e == "png"@
            ||| e == "apng"@
            ||| e == "gif"@
            ||| e == "webp"@
            ||| e == "tif"@
            ||| e == "tiff"@
            ||| e == "tga"@
            ||| e == "bmp"@
            ||| e == "ico"@
            ||| e == "hdr"@
            ||| e == "pbm"@
            ||| e == "pam"@
            ||| e == "ppm"@
            ||| e == "pgm"@
        },
{
    let head = stem.push('.');
    let name = stem + seq!['.'] + ext;
    assert(name =~= head + ext);
    lemma_last_dot_append(head, ext);
    assert(head.last() == '.');
    assert(last_dot(head) == Some(stem.len() as int));
    assert(name.len() >= 2);
    assert(name.len() >= 3);
    assert(name.skip(stem.len() + 1int) =~= ext);
    lemma_ascii_lower_idempotent(ext);
}

/// Any name that ends in `.bmp`, in any case, after a non-empty stem is an image.
pub proof fn lemma_bmp_names_supported(stem: Seq<char>, ext: Seq<char>)
    requires
        stem.len() > 0,
        is_ascii_text(ext),
        ascii_lower(ext) == "bmp"@,
    ensures
        is_supported_name(stem + seq!['.'] + ext),
{
    reveal_strlit("bmp");
    assert(ascii_lower(ext).len() == ext.len());
    assert(ext.len() == 3);
    assert(!ext.contains('.')) by {
        if ext.contains('.') {
            let k = choose|k: int| 0 <= k < ext.len() && ext[k] == '.';
            assert(ascii_lower(ext)[k] == crate::text::ascii_lower_char(ext[k]));
            assert(ascii_lower(ext)[k] == '.');
            assert("bmp"@[0] == 'b' && "bmp"@[1] == 'm' && "bmp"@[2] == 'p');
        }
    }
    lemma_supported_names(stem, ext);
}

/// The delay of an animation frame in nanoseconds, from its delay in milliseconds
/// given as the fraction `numer_ms / denom_ms`.
pub fn frame_delay_nanos(numer_ms: u32, denom_ms: u32) -> (r: u64)
    requires
        denom_ms > 0,
    ensures
        r == (numer_ms as nat * 1_000_000) / denom_ms as nat,
{
    let numerator_nano: u64 = numer_ms as u64 * 1_000_000;
    let denom_nano: u64 = denom_ms as u64;
    numerator_nano / denom_nano
}

/// The index of the highest set bit of a non-zero number (`31 - leading_zeros`).
pub open spec fn floor_log2(x: u32) -> nat
    decreases x,
{
    if x <= 1 {
        0
    } else {
        1 + floor_log2(x / 2)
    }
}

/// How many mipmap levels a texture gets: `None` for none at all, otherwise the
/// most levels generated, the smaller base-2 logarithm of the sides, at most four.
pub open spec fn mipmap_levels(width: u32, height: u32) -> Option<u32> {
    let lx = floor_log2(width);
    let ly = floor_log2(height);
    let m = if lx < ly { lx } else { ly };
    let levels = if m < 4 { m } else { 4 };
    if levels == 1 {
        None
    } else {
        Some(levels as u32)
    }
}

spec fn pow2_nat(n: nat) -> nat
    decreases n,
{
    if n == 0 {
        1
    } else {
        2 * pow2_nat((n - 1) as nat)
    }
}

proof fn lemma_floor_log2_below(x: u32, n: nat)
    requires
        n >= 1,
        x < pow2_nat(n),
    ensures
        floor_log2(x) < n,
    decreases n,
{
    if x > 1 {
        if n == 1 {
            assert(pow2_nat(1) == 2 * pow2_nat(0));
        } else {
            lemma_floor_log2_below(x / 2, (n - 1) as nat);
        }
    }
}

fn log2_floor(x: u32) -> (r: u32)
    requires
        x > 0,
    ensures
        r as nat == floor_log2(x),
        r < 32,
{
    let mut v = x;
    let mut r: u32 = 0;
    proof {
        reveal_with_fuel(pow2_nat, 33);
        assert(pow2_nat(32) == 4294967296);
        lemma_floor_log2_below(x, 32);
    }
    while v > 1
        invariant
            v >= 1,
            r as nat + floor_log2(v) == floor_log2(x),
            r + floor_log2(v) < 32,
        decreases v,
    {
        v = v / 2;
        r = r + 1;
    }
    r
}

/// The mipmap levels of a texture of the given size.
pub fn texture_mipmap_levels(width: u32, height: u32) -> (r: Option<u32>)
    requires
        width > 0,
        height > 0,
    ensures
        r == mipmap_levels(width, height),
{
    let x_pow = log2_floor(width);
    let y_pow = log2_floor(height);
    let m = if x_pow < y_pow { x_pow } else { y_pow };
    let levels = if m < 4 { m } else { 4 };
    if levels == 1 {
        None
    } else {
        Some(levels)
    }
}

/// The format of an image file, as the decoder names it.
#[derive(Debug, Clone, Copy, PartialEq, Eq, Structural)]
pub enum ImgFormat {
    Png,
    Jpeg,
    Gif,
    WebP,
    Pnm,
    Tiff,
    Tga,
    Dds,
    Bmp,
    Ico,
    Hdr,
    Farbfeld,
    Avif,
}

/// The format that `image::guess_format` reads from the first bytes of a file, if it
/// knows them.
pub uninterp spec fn guessed_format(start: Seq<u8>) -> Option<ImgFormat>;

/// The format that `image::ImageFormat::from_path` gives for the extension of a path,
/// if it knows it.
pub uninterp spec fn format_of_extension(path: Seq<char>) -> Option<ImgFormat>;

/// `image::guess_format`: the format whose magic bytes begin `start`.
#[verifier::external_body]
fn guess_format_of(start: &[u8]) -> (r: Option<ImgFormat>)
    ensures
        r == guessed_format(start@),
{
    match image::guess_format(start) {
        Ok(F::Png) => Some(ImgFormat::Png), Ok(F::Jpeg) => Some(ImgFormat::Jpeg), Ok(F::Gif) => Some(ImgFormat::Gif),
        Ok(F::WebP) => Some(ImgFormat::WebP), Ok(F::Pnm) => Some(ImgFormat::Pnm), Ok(F::Tiff) => Some(ImgFormat::Tiff),
        Ok(F::Tga) => Some(ImgFormat::Tga), Ok(F::Dds) => Some(ImgFormat::Dds), Ok(F::Bmp) => Some(ImgFormat::Bmp),
        Ok(F::Ico) => Some(ImgFormat::Ico), Ok(F::Hdr) => Some(ImgFormat::Hdr), Ok(F::Farbfeld) => Some(ImgFormat::Farbfeld),
        Ok(F::Avif) => Some(ImgFormat::Avif),
        _ => None,
    }
}

/// `image::ImageFormat::from_path`: the format named by the extension of `path`.
#[verifier::external_body]
fn format_of_path(path: &str) -> (r: Option<ImgFormat>)
    ensures
        r == format_of_extension(path@),
{
    match F::from_path(path) {
        Ok(F::Png) => Some(ImgFormat::Png), Ok(F::Jpeg) => Some(ImgFormat::Jpeg), Ok(F::Gif) => Some(ImgFormat::Gif),
        Ok(F::WebP) => Some(ImgFormat::WebP), Ok(F::Pnm) => Some(ImgFormat::Pnm), Ok(F::Tiff) => Some(ImgFormat::Tiff),
        Ok(F::Tga) => Some(ImgFormat::Tga), Ok(F::Dds) => Some(ImgFormat::Dds), Ok(F::Bmp) => Some(ImgFormat::Bmp),
        Ok(F::Ico) => Some(ImgFormat::Ico), Ok(F::Hdr) => Some(ImgFormat::Hdr), Ok(F::Farbfeld) => Some(ImgFormat::Farbfeld),
        Ok(F::Avif) => Some(ImgFormat::Avif),
        _ => None,
    }
}

/// Why the format of a file could not be told.
#[derive(Debug, Clone, Copy, PartialEq, Eq, Structural)]
pub enum FormatError {
    /// Neither the first bytes nor the extension name a known format.
    Unknown,
}

/// The format of a file: from its first 512 bytes (`start`, when the file has that
/// many), else from the extension of its path.
pub open spec fn detected_format(start: Option<Seq<u8>>, path: Seq<char>) -> Result<ImgFormat, FormatError> {
    match start {
        Some(s) if guessed_format(s) is Some => Ok(guessed_format(s)->0),
        _ => match format_of_extension(path) {
            Some(f) => Ok(f),
            None => Err(FormatError::Unknown),
        },
    }
}

/// Detects the format of an image file from its first 512 bytes, if it has that many,
/// and otherwise from the extension of its path.
pub fn detect_format(start: Option<&[u8]>, path: &str) -> (r: Result<ImgFormat, FormatError>)
    ensures
        r == detected_format(
            match start {
                Some(s) => Some(s@),
                None => None,
            },
            path@,
        ),
{
    if let Some(s) = start {
        if let Some(f) = guess_format_of(s) {
            return Ok(f);
        }
    }
    match format_of_path(path) {
        Some(f) => Ok(f),
        None => Err(FormatError::Unknown),
    }
}

/// What the EXIF data of a file says of its orientation.
#[derive(Debug, Clone, PartialEq, Eq)]
pub enum ExifOrientation {
    /// The file holds no readable EXIF data.
    NoExif,
    /// The EXIF data has no `Orientation` field in the primary image.
    NoField,
    /// The field is not of the type `SHORT`.
    NotShort,
    /// The values of the field.
    Shorts(Vec<u16>),
}

/// What `exif::Reader::read_from_container` finds in the bytes of a file, as far as the
/// `Orientation` field of the primary image goes.
pub uninterp spec fn exif_orientation_in(data: Seq<u8>) -> ExifOrientation;

/// `exif::Reader::read_from_container` on the bytes of a file, and its `Orientation`
/// field of the primary image (`Exif::get_field`).
#[verifier::external_body]
fn read_exif_orientation(data: &[u8]) -> (r: ExifOrientation)
    ensures
        r == exif_orientation_in(data@),
{
    match exif::Reader::new().read_from_container(&mut std::io::Cursor::new(data)) {
        Err(_) => ExifOrientation::NoExif,
        Ok(exif) => match exif.get_field(exif::Tag::Orientation, exif::In::PRIMARY) {
            None => ExifOrientation::NoField,
            Some(field) => match &field.value {
                exif::Value::Short(values) => ExifOrientation::Shorts(values.clone()),
                _ => ExifOrientation::NotShort,
            },
        },
    }
}

/// Why the orientation of a file could not be read.
#[derive(Debug, Clone, Copy, PartialEq, Eq, Structural)]
pub enum OrientationError {
    /// The file holds no readable EXIF data.
    NoExif,
    /// The `Orientation` field is not of the type `SHORT`.
    NotShort,
}

/// The orientation that EXIF data asks for: none without the field or with no value,
/// else the rotation its first value names (an invalid value is ignored).
pub open spec fn orientation_of_exif(e: ExifOrientation) -> Result<Orientation, OrientationError> {
    match e {
        ExifOrientation::NoExif => Err(OrientationError::NoExif),
        ExifOrientation::NoField => Ok(Orientation::Deg0),
        ExifOrientation::NotShort => Err(OrientationError::NotShort),
        ExifOrientation::Shorts(v) => if v@.len() == 0 {
            Ok(Orientation::Deg0)
        } else {
            Ok(exif_orientation(v@[0]))
        },
    }
}

/// Reads the rotation an image needs from the EXIF data in the bytes of its file.
pub fn detect_orientation(data: &[u8]) -> (r: Result<Orientation, OrientationError>)
    ensures
        r == orientation_of_exif(exif_orientation_in(data@)),
{
    match read_exif_orientation(data) {
        ExifOrientation::NoExif => Err(OrientationError::NoExif),
        ExifOrientation::NoField => Ok(Orientation::Deg0),
        ExifOrientation::NotShort => Err(OrientationError::NotShort),
        ExifOrientation::Shorts(v) => {
            if v.len() == 0 {
                Ok(Orientation::Deg0)
            } else {
                Ok(orientation_from_exif(Some(v[0])))
            }
        },
    }
}

/// EXIF data without an `Orientation` field asks for no rotation: the orientation
/// read from it is `Deg0`, the same as for the value 1 (upright) or an empty field. A
/// still image decoded from such a file carries no rotation.
pub proof fn lemma_no_orientation_field_is_upright(
    data: Seq<u8>,
    upright: Vec<u16>,
    empty: Vec<u16>,
    req_id: u32,
    format: ImgFormat,
)
    requires
        exif_orientation_in(data) is NoField,
        upright@.len() > 0,
        upright@[0] == 1,
        empty@.len() == 0,
    ensures
        orientation_of_exif(exif_orientation_in(data)) == Ok::<Orientation, OrientationError>(
            Orientation::Deg0,
        ),
        orientation_of_exif(exif_orientation_in(data)) == orientation_of_exif(
            ExifOrientation::Shorts(upright),
        ),
        orientation_of_exif(exif_orientation_in(data)) == orientation_of_exif(
            ExifOrientation::Shorts(empty),
        ),
        format != ImgFormat::Gif && (format != ImgFormat::Png || apng_found(data) == Some(false))
            ==> match still_decoded(data, format) {
            Some(x) => frame_results(req_id, data, format) == Some(
                seq![
                    LoadResult::Frame {
                        req_id,
                        image: x.2,
                        width: x.0,
                        height: x.1,
                        delay_nano: 0,
                        orientation: Orientation::Deg0,
                    },
                ],
            ),
            None => frame_results(req_id, data, format) is None,
        },
{
}

/// EXIF data that cannot be read, or whose `Orientation` field is not of the type
/// `SHORT`, makes reading the orientation fail with that reason; the still image decoded
/// from such a file is still shown, unrotated.
pub proof fn lemma_unreadable_orientation_is_an_error(data: Seq<u8>, req_id: u32, format: ImgFormat)
    requires
        exif_orientation_in(data) is NoExif || exif_orientation_in(data) is NotShort,
    ensures
        exif_orientation_in(data) is NoExif ==> orientation_of_exif(exif_orientation_in(data))
            == Err::<Orientation, OrientationError>(OrientationError::NoExif),
        exif_orientation_in(data) is NotShort ==> orientation_of_exif(exif_orientation_in(data))
            == Err::<Orientation, OrientationError>(OrientationError::NotShort),
        format != ImgFormat::Gif && (format != ImgFormat::Png || apng_found(data) == Some(false))
            ==> match still_decoded(data, format) {
            Some(x) => frame_results(req_id, data, format) == Some(
                seq![
                    LoadResult::Frame {
                        req_id,
                        image: x.2,
                        width: x.0,
                        height: x.1,
                        delay_nano: 0,
                        orientation: Orientation::Deg0,
                    },
                ],
            ),
            None => frame_results(req_id, data, format) is None,
        },
{
}

/// The rotation read from EXIF data ignores mirroring: each mirrored value (2, 4, 5, 7)
/// rotates as its unmirrored partner (1, 3, 8, 6) does, and a value outside 1 to 8
/// leaves the image upright.
pub proof fn lemma_exif_rotation_ignores_mirroring(v: u16)
    ensures
        exif_orientation(2) == exif_orientation(1),
        exif_orientation(4) == exif_orientation(3),
        exif_orientation(5) == exif_orientation(8),
        exif_orientation(7) == exif_orientation(6),
        exif_orientation(1) == Orientation::Deg0,
        exif_orientation(3) == Orientation::Deg180,
        exif_orientation(6) == Orientation::Deg270,
        exif_orientation(8) == Orientation::Deg90,
        (v == 0 || v > 8) ==> exif_orientation(v) == Orientation::Deg0,
{
}

/// A decoded frame of an animation: width, height, the delay as the fraction
/// `numerator / denominator` of milliseconds, and the RGBA pixels, row by row.
pub type AnimFrame = (u32, u32, u32, u32, Vec<u8>);

/// An animation frame as values.
pub open spec fn anim_frame_view(f: AnimFrame) -> (u32, u32, u32, u32, Seq<u8>) {
    (f.0, f.1, f.2, f.3, f.4@)
}

/// What `image::load_from_memory_with_format` decodes from the bytes of a file in
/// the given format: its width, height and RGBA pixels, if it can decode them.
pub uninterp spec fn still_decoded(bytes: Seq<u8>, format: ImgFormat) -> Option<(u32, u32, Seq<u8>)>;

/// The frames that the GIF decoder (`GifDecoder` with `AnimationDecoder::into_frames`)
/// reads from the bytes of a file, if it reads all of them.
pub uninterp spec fn gif_decoded(bytes: Seq<u8>) -> Option<Seq<(u32, u32, u32, u32, Seq<u8>)>>;

/// Whether the PNG decoder (`PngDecoder::is_apng`) finds an animated PNG in the bytes
/// of a file; `None` when it cannot read them as PNG.
pub uninterp spec fn apng_found(bytes: Seq<u8>) -> Option<bool>;

/// The frames that the animated-PNG decoder (`PngDecoder::apng`) reads from the bytes
/// of a file, if it reads all of them.
pub uninterp spec fn apng_decoded(bytes: Seq<u8>) -> Option<Seq<(u32, u32, u32, u32, Seq<u8>)>>;

/// `image::load_from_memory_with_format`, the result as RGBA pixels.
#[verifier::external_body]
fn decode_still(bytes: &[u8], format: ImgFormat) -> (r: Option<(u32, u32, Vec<u8>)>)
    ensures
        match r {
            Some(x) => still_decoded(bytes@, format) == Some((x.0, x.1, x.2@)),
            None => still_decoded(bytes@, format) is None,
        },
{
    let f = [F::Png, F::Jpeg, F::Gif, F::WebP, F::Pnm, F::Tiff, F::Tga, F::Dds, F::Bmp, F::Ico, F::Hdr,
        F::Farbfeld, F::Avif][format as usize];
    let img = image::load_from_memory_with_format(bytes, f).ok()?.to_rgba8();
    Some((img.width(), img.height(), img.into_raw()))
}

/// `GifDecoder::new` and `AnimationDecoder::into_frames`, every frame collected
/// (`Frames::collect_frames`) with its delay and RGBA pixels.
#[verifier::external_body]
fn decode_gif(bytes: &[u8]) -> (r: Option<Vec<AnimFrame>>)
    ensures
        match r {
            Some(v) => gif_decoded(bytes@) == Some(anim_views(v@)),
            None => gif_decoded(bytes@) is None,
        },
{
    let d = image::codecs::gif::GifDecoder::new(std::io::Cursor::new(bytes)).ok()?;
    let frames = image::AnimationDecoder::into_frames(d).collect_frames().ok()?;
    Some(frames.into_iter().map(|f| {
        let (n, m) = f.delay().numer_denom_ms();
        let b = f.into_buffer();
        (b.width(), b.height(), n, m, b.into_raw())
    }).collect())
}

/// `PngDecoder::new` and `PngDecoder::is_apng`.
#[verifier::external_body]
fn png_is_animated(bytes: &[u8]) -> (r: Option<bool>)
    ensures
        r == apng_found(bytes@),
{
    match image::codecs::png::PngDecoder::new(std::io::Cursor::new(bytes)) {
        Ok(d) => Some(d.is_apng()),
        Err(_) => None,
    }
}

/// `PngDecoder::apng` and `AnimationDecoder::into_frames`, every frame collected with
/// its delay and RGBA pixels.
#[verifier::external_body]
fn decode_apng(bytes: &[u8]) -> (r: Option<Vec<AnimFrame>>)
    ensures
        match r {
            Some(v) => apng_decoded(bytes@) == Some(anim_views(v@)),
            None => apng_decoded(bytes@) is None,
        },
{
    let d = image::codecs::png::PngDecoder::new(std::io::Cursor::new(bytes)).ok()?.apng();
    let frames = image::AnimationDecoder::into_frames(d).collect_frames().ok()?;
    Some(frames.into_iter().map(|f| {
        let (n, m) = f.delay().numer_denom_ms();
        let b = f.into_buffer();
        (b.width(), b.height(), n, m, b.into_raw())
    }).collect())
}

/// Animation frames as values.
pub open spec fn anim_views(v: Seq<AnimFrame>) -> Seq<(u32, u32, u32, u32, Seq<u8>)> {
    v.map_values(|f: AnimFrame| anim_frame_view(f))
}

/// Load results with their pixels as values.
pub open spec fn result_views(v: Seq<LoadResult<Vec<u8>>>) -> Seq<LoadResult<Seq<u8>>> {
    v.map_values(|x: LoadResult<Vec<u8>>| result_view(x))
}

/// A load result with its pixels as values.
pub open spec fn result_view(r: LoadResult<Vec<u8>>) -> LoadResult<Seq<u8>> {
    match r {
        LoadResult::Start { req_id, mod_time } => LoadResult::Start { req_id, mod_time },
        LoadResult::Frame { req_id, image, width, height, delay_nano, orientation } => LoadResult::Frame {
            req_id,
            image: image@,
            width,
            height,
            delay_nano,
            orientation,
        },
        LoadResult::Done { req_id } => LoadResult::Done { req_id },
        LoadResult::Failed { req_id } => LoadResult::Failed { req_id },
    }
}

/// The frame results of the animation frames `fs`, shown unrotated, each with its delay
/// in nanoseconds; `None` when a frame has a zero denominator, which gives no delay.
pub open spec fn anim_results(req_id: u32, fs: Seq<(u32, u32, u32, u32, Seq<u8>)>) -> Option<
    Seq<LoadResult<Seq<u8>>>,
> {
    if exists|k: int| 0 <= k < fs.len() && #[trigger] fs[k].3 == 0 {
        None
    } else {
        Some(
            fs.map_values(
                |f: (u32, u32, u32, u32, Seq<u8>)|
                    LoadResult::Frame {
                        req_id,
                        image: f.4,
                        width: f.0,
                        height: f.1,
                        delay_nano: ((f.2 as nat * 1_000_000) / f.3 as nat) as u64,
                        orientation: Orientation::Deg0,
                    },
            ),
        )
    }
}

/// The frames decoded from the bytes of a file of the format `format`: a GIF or an
/// animated PNG gives its animation frames; any other image one frame, rotated as its
/// EXIF data asks (not rotated when that cannot be read). `None` when decoding fails.
pub open spec fn frame_results(req_id: u32, bytes: Seq<u8>, format: ImgFormat) -> Option<
    Seq<LoadResult<Seq<u8>>>,
> {
    let still = match still_decoded(bytes, format) {
        Some(x) => Some(
            seq![
                LoadResult::Frame {
                    req_id,
                    image: x.2,
                    width: x.0,
                    height: x.1,
                    delay_nano: 0,
                    orientation: match orientation_of_exif(exif_orientation_in(bytes)) {
                        Ok(o) => o,
                        Err(_) => Orientation::Deg0,
                    },
                },
            ],
        ),
        None => None,
    };
    match format {
        ImgFormat::Gif => match gif_decoded(bytes) {
            Some(fs) => anim_results(req_id, fs),
            None => None,
        },
        ImgFormat::Png => match apng_found(bytes) {
            Some(true) => match apng_decoded(bytes) {
                Some(fs) => anim_results(req_id, fs),
                None => None,
            },
            Some(false) => still,
            None => None,
        },
        _ => still,
    }
}

/// What a loader reports for a file that was read: it starts (with the file's
/// modification time), then either every decoded frame and `Done`, or `Failed` when the
/// format cannot be told or the image cannot be decoded.
pub open spec fn planned_results(
    req_id: u32,
    bytes: Seq<u8>,
    start: Option<Seq<u8>>,
    path: Seq<char>,
    mod_time: Option<u64>,
) -> Seq<LoadResult<Seq<u8>>> {
    let head = seq![LoadResult::Start { req_id, mod_time }];
    match detected_format(start, path) {
        Err(_) => head.push(LoadResult::Failed { req_id }),
        Ok(format) => match frame_results(req_id, bytes, format) {
            Some(frames) => (head + frames).push(LoadResult::Done { req_id }),
            None => head.push(LoadResult::Failed { req_id }),
        },
    }
}

/// The frame results of decoded animation frames; `None` when a frame has no delay.
fn anim_frame_results(req_id: u32, frames: Vec<AnimFrame>) -> (r: Option<Vec<LoadResult<Vec<u8>>>>)
    ensures
        match r {
            Some(v) => anim_results(req_id, anim_views(frames@))
                == Some(result_views(v@)),
            None => anim_results(req_id, anim_views(frames@)) is None,
        },
{
    let ghost fs = anim_views(frames@);
    let ghost n = frames.len();
    let mut rest = frames;
    let mut out: Vec<LoadResult<Vec<u8>>> = Vec::new();
    while rest.len() > 0
        invariant
            rest.len() <= n,
            fs == anim_views(frames@),
            fs.len() == n,
            anim_views(rest@) == fs.skip(n - rest.len()),
            forall|k: int| 0 <= k < n - rest.len() ==> fs[k].3 != 0,
            result_views(out@) == fs.take(n - rest.len()).map_values(
                |f: (u32, u32, u32, u32, Seq<u8>)|
                    LoadResult::Frame {
                        req_id,
                        image: f.4,
                        width: f.0,
                        height: f.1,
                        delay_nano: ((f.2 as nat * 1_000_000) / f.3 as nat) as u64,
                        orientation: Orientation::Deg0,
                    },
            ),
        decreases rest.len(),
    {
        let ghost i = n - rest.len();
        let ghost before = rest@;
        let (width, height, numer, denom, image) = rest.remove(0);
        assert(anim_views(before)[0] == anim_frame_view(before[0]));
        assert(fs.skip(i)[0] == fs[i]);
        assert(fs[i] == anim_frame_view(before[0]));
        if denom == 0 {
            assert(0 <= i < fs.len() && fs[i].3 == 0);
            assert(anim_results(req_id, fs) is None);
            return None;
        }
        let delay_nano = frame_delay_nanos(numer, denom);
        let ghost prev = result_views(out@);
        out.push(LoadResult::Frame { req_id, image, width, height, delay_nano, orientation: Orientation::Deg0 });
        proof {
            assert(rest@ =~= before.drop_first());
            let ghost rv = anim_views(rest@);
            assert forall|k: int| 0 <= k < rest.len() implies #[trigger] rv[k] == fs.skip(i + 1)[k] by {
                assert(rest@[k] == before[k + 1]);
                assert(anim_views(before)[k + 1] == fs.skip(i)[k + 1]);
            }
            assert(anim_views(rest@) =~= fs.skip(n - rest.len()));
            assert(result_views(out@) =~= prev.push(
                result_view(out@.last()),
            ));
            assert(fs.take(i + 1) =~= fs.take(i).push(fs[i]));
            assert(result_views(out@) =~= fs.take(n - rest.len()).map_values(
                |f: (u32, u32, u32, u32, Seq<u8>)|
                    LoadResult::Frame {
                        req_id,
                        image: f.4,
                        width: f.0,
                        height: f.1,
                        delay_nano: ((f.2 as nat * 1_000_000) / f.3 as nat) as u64,
                        orientation: Orientation::Deg0,
                    },
            ));
        }
    }
    assert(fs.take(n as int) =~= fs);
    Some(out)
}

/// The frame results decoded from the bytes of a file of the format `format`: see
/// `frame_results`.
fn decode_frames(req_id: u32, bytes: &[u8], format: ImgFormat) -> (r: Option<Vec<LoadResult<Vec<u8>>>>)
    ensures
        match r {
            Some(v) => frame_results(req_id, bytes@, format) == Some(
                result_views(v@),
            ),
            None => frame_results(req_id, bytes@, format) is None,
        },
{
    let animated = match format {
        ImgFormat::Gif => Some(decode_gif(bytes)),
        ImgFormat::Png => match png_is_animated(bytes) {
            Some(true) => Some(decode_apng(bytes)),
            Some(false) => None,
            None => return None,
        },
        _ => None,
    };
    match animated {
        Some(Some(frames)) => anim_frame_results(req_id, frames),
        Some(None) => None,
        None => match decode_still(bytes, format) {
            Some((width, height, image)) => {
                let orientation = match detect_orientation(bytes) {
                    Ok(o) => o,
                    Err(_) => Orientation::Deg0,
                };
                let mut v: Vec<LoadResult<Vec<u8>>> = Vec::new();
                v.push(LoadResult::Frame { req_id, image, width, height, delay_nano: 0, orientation });
                assert(result_views(v@) =~= seq![
                    result_view(v@[0]),
                ]);
                Some(v)
            },
            None => None,
        },
    }
}

/// Loads the file `path` whose bytes are `bytes`, the first 512 of them as `start`
/// when it has that many, and whose modification time is `mod_time`: the results a
/// loader reports, in order (see `planned_results`).
pub fn load_results(
    req_id: u32,
    bytes: &[u8],
    start: Option<&[u8]>,
    path: &str,
    mod_time: Option<u64>,
) -> (r: Vec<LoadResult<Vec<u8>>>)
    ensures
        result_views(r@) == planned_results(
            req_id,
            bytes@,
            match start {
                Some(s) => Some(s@),
                None => None,
            },
            path@,
            mod_time,
        ),
{
    let mut out: Vec<LoadResult<Vec<u8>>> = Vec::new();
    out.push(LoadResult::Start { req_id, mod_time });
    let ghost head = result_views(out@);
    assert(head =~= seq![LoadResult::<Seq<u8>>::Start { req_id, mod_time }]);
    match detect_format(start, path) {
        Err(_) => {
            out.push(LoadResult::Failed { req_id });
            assert(result_views(out@) =~= head.push(
                LoadResult::Failed { req_id },
            ));
        },
        Ok(format) => match decode_frames(req_id, bytes, format) {
            Some(mut frames) => {
                let ghost fv = result_views(frames@);
                out.append(&mut frames);
                out.push(LoadResult::Done { req_id });
                assert(result_views(out@) =~= (head + fv).push(
                    LoadResult::Done { req_id },
                ));
            },
            None => {
                out.push(LoadResult::Failed { req_id });
                assert(result_views(out@) =~= head.push(
                    LoadResult::Failed { req_id },
                ));
            },
        },
    }
    out
}

/// A request to load the file at `path`, identified by `req_id`.
#[derive(Debug, Clone, PartialEq, Eq)]
pub struct LoadRequest {
    pub req_id: u32,
    pub path: String,
}

/// What a loader thread reports about a request, in this order: `Start` once, then
/// a `Frame` for each decoded frame, then `Done` or `Failed`. The decoded image is
/// carried as `F`.
pub enum LoadResult<F> {
    /// The file was found; `mod_time` is its modification time in nanoseconds since
    /// the Unix epoch, when the system reports one.
    Start { req_id: u32, mod_time: Option<u64> },
    /// One decoded frame, with its dimensions in pixels.
    Frame {
        req_id: u32,
        image: F,
        width: u32,
        height: u32,
        delay_nano: u64,
        /// How much the image needs to be rotated counter-clockwise to be shown correctly.
        orientation: Orientation,
    },
    /// Every frame was sent.
    Done { req_id: u32 },
    /// The file could not be loaded.
    Failed { req_id: u32 },
}

/// The request a load result answers.
pub open spec fn result_req_id<F>(r: LoadResult<F>) -> u32 {
    match r {
        LoadResult::Start { req_id, .. } => req_id,
        LoadResult::Frame { req_id, .. } => req_id,
        LoadResult::Done { req_id } => req_id,
        LoadResult::Failed { req_id } => req_id,
    }
}

impl<F> LoadResult<F> {
    /// The request this result answers.
    pub fn req_id(&self) -> (r: u32)
        ensures
            r == result_req_id(*self),
    {
        match self {
            LoadResult::Start { req_id, .. } => *req_id,
            LoadResult::Frame { req_id, .. } => *req_id,
            LoadResult::Done { req_id } => *req_id,
            LoadResult::Failed { req_id } => *req_id,
        }
    }
}

} // verus!
