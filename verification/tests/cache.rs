use emulsion::image_cache::cache::{CacheError, ImageCache};
use emulsion::image_cache::directory::{get_action, DirItem, Directory, Error, ListedEntry};
use emulsion::image_cache::image_loader::{
    detect_format, detect_orientation, exif_orientation_is_flipped, file_extension_of, load_results,
    frame_delay_nanos, is_file_supported, orientation_from_exif, texture_mipmap_levels, FormatError,
    ImgFormat, LoadRequest, LoadResult, Orientation, OrientationError,
};
use emulsion::image_cache::name_order::{name_is_comparable, sort_by_name};
use emulsion::image_cache::pending_requests::PendingRequests;
use emulsion::image_cache::{
    get_anim_size_estimate, get_image_size_estimate, retained_entries, AnimationFrameTexture,
};

fn entry(folder: &str, name: &str, is_file: bool) -> ListedEntry {
    ListedEntry {
        path: format!("{}/{}", folder, name),
        file_name: name.to_string(),
        is_file_or_symlink: is_file,
        modified: Some(7),
    }
}

/// A folder whose names sort as a2.png, a10.png, b.png, c.jpg, notes.txt.
fn listing() -> Vec<ListedEntry> {
    vec![
        entry("/p", "b.png", true),
        entry("/p", "notes.txt", true),
        entry("/p", "c.jpg", true),
        entry("/p", "sub", false),
        entry("/p", "a10.png", true),
        entry("/p", "a2.png", true),
    ]
}

fn item(name: &str, id: u32) -> DirItem {
    DirItem { path: format!("/d/{}", name), file_name: name.to_string(), request_id: id, modified: None }
}

fn frame(image: u32, width: u32, height: u32) -> AnimationFrameTexture<u32> {
    AnimationFrameTexture { image, width, height, delay_nano: 0, orientation: Orientation::Deg0 }
}

fn request_for(reqs: &[LoadRequest], path: &str) -> u32 {
    reqs.iter().find(|r| r.path == path).expect("a request for the file").req_id
}

fn deliver(cache: &mut ImageCache<u32>, id: u32, frames: &[(u32, u32, u32)]) {
    cache.receive_load_result(LoadResult::Start { req_id: id, mod_time: Some(7) });
    for &(image, width, height) in frames {
        cache.receive_load_result(LoadResult::Frame {
            req_id: id,
            image,
            width,
            height,
            delay_nano: 40_000_000,
            orientation: Orientation::Deg0,
        });
    }
    cache.receive_load_result(LoadResult::Done { req_id: id });
}

#[test]
fn supported_file_names() {
    for name in ["a.png", "b.JPG", "c.Jpeg", "d.gif", "e.webp", "f.tiff", "g.ico", "h.pgm"] {
        assert!(is_file_supported(name), "{}", name);
    }
    for name in ["a.txt", "png", ".png", "a.png.bak", "noext", "a.", ".."] {
        assert!(!is_file_supported(name), "{}", name);
    }
    assert_eq!(file_extension_of("archive.tar.gz"), Some(vec!['g', 'z']));
    assert_eq!(file_extension_of(".hidden"), None);
    assert_eq!(file_extension_of("a."), Some(vec![]));
}

#[test]
fn exif_orientations() {
    assert_eq!(orientation_from_exif(None), Orientation::Deg0);
    let expected = [
        Orientation::Deg0,
        Orientation::Deg0,
        Orientation::Deg180,
        Orientation::Deg180,
        Orientation::Deg90,
        Orientation::Deg270,
        Orientation::Deg270,
        Orientation::Deg90,
    ];
    for (v, o) in (1u16..=8).zip(expected) {
        assert_eq!(orientation_from_exif(Some(v)), o);
    }
    let flipped: Vec<u16> = (1u16..=8).filter(|v| exif_orientation_is_flipped(*v)).collect();
    assert_eq!(flipped, vec![2, 4, 5, 7]);
    assert_eq!(Orientation::default(), Orientation::Deg0);
    assert_eq!(orientation_from_exif(Some(0)), Orientation::Deg0);
    assert_eq!(orientation_from_exif(Some(9)), Orientation::Deg0);
    assert_eq!(orientation_from_exif(Some(u16::MAX)), Orientation::Deg0);
}

#[test]
fn frame_delays_and_mipmaps() {
    assert_eq!(frame_delay_nanos(40, 1), 40_000_000);
    assert_eq!(frame_delay_nanos(1, 3), 333_333);
    assert_eq!(frame_delay_nanos(0, 7), 0);
    assert_eq!(texture_mipmap_levels(1, 1), Some(0));
    assert_eq!(texture_mipmap_levels(2, 3), None);
    assert_eq!(texture_mipmap_levels(4, 1000), Some(2));
    assert_eq!(texture_mipmap_levels(1024, 4096), Some(4));
}

#[test]
fn size_estimates() {
    assert_eq!(get_image_size_estimate(100, 50), 30_000);
    assert_eq!(get_image_size_estimate(0, 50), 0);
    let frames = vec![frame(0, 10, 10), frame(1, 2, 3), frame(2, 1, 1)];
    assert_eq!(get_anim_size_estimate(&frames), 600 + 36 + 6);
    assert_eq!(get_anim_size_estimate::<u32>(&[]), 0);
    let f = AnimationFrameTexture { image: 0u32, width: 3, height: 5, delay_nano: 0, orientation: Orientation::Deg90 };
    assert_eq!(f.oriented_dimensions(), (5, 3));
    assert_eq!(frame(0, 3, 5).oriented_dimensions(), (3, 5));
}

#[test]
fn eviction_keeps_nearest_entries_within_capacity() {
    // Capacity 1000, one more image estimated at 100 bytes.
    let sizes: Vec<i128> = vec![300, 300, 300, 300, 300];
    let (keep, left) = retained_entries(&sizes, 2, 1000, 100);
    assert_eq!(keep.iter().filter(|k| **k).count(), 2);
    assert!(keep[2]);
    assert!(keep[1] ^ keep[3]);
    assert!(!keep[0] && !keep[4]);
    assert_eq!(left, 400);
    let (none, left2) = retained_entries(&sizes, 0, 300, 0);
    assert!(none.iter().all(|k| !*k));
    assert_eq!(left2, 300);
    let (all, left3) = retained_entries(&sizes, 9, 10_000, 0);
    assert!(all.iter().all(|k| *k));
    assert_eq!(left3, 10_000 - 1500);
}

#[test]
fn natural_name_order() {
    assert!(name_is_comparable("img0042.png"));
    assert!(!name_is_comparable("n12345678901234567890.png"));
    let sorted = sort_by_name(vec![
        item("img10.png", 1),
        item("img2.png", 2),
        item("Img1.png", 3),
        item("b.png", 4),
        item("a.png", 5),
    ]);
    let names: Vec<&str> = sorted.iter().map(|d| d.file_name.as_str()).collect();
    assert_eq!(names, vec!["a.png", "b.png", "Img1.png", "img2.png", "img10.png"]);
}

#[test]
fn images_among_files() {
    let files = vec![item("a.txt", 1), item("b.png", 2), item("c", 3), item("d.gif", 4)];
    assert_eq!(get_action(&files), vec![1, 3]);
    assert!(get_action(&vec![]).is_empty());
}

#[test]
fn directory_navigation_wraps() {
    let mut dir = Directory::new();
    assert_eq!(dir.curr_filename(), "");
    assert!(dir.change_directory("/p", Ok(listing())).is_ok());
    assert_eq!(dir.path(), "/p");
    assert_eq!(dir.curr_filename(), "a2.png");
    assert_eq!(dir.image_count(), None);
    assert!(matches!(dir.set_curr_img_index(0), Err(Error::WaitingOnFolderFilter)));
    dir.run_pending_filter();
    assert_eq!(dir.image_count(), Some(4));
    assert_eq!(dir.curr_img_index(), Some(0));
    dir.jump_to_next();
    assert_eq!(dir.curr_filename(), "a10.png");
    dir.jump_to_prev();
    dir.jump_to_prev();
    assert_eq!(dir.curr_filename(), "c.jpg");
    assert_eq!(dir.curr_img_index(), Some(3));
    dir.jump_to_next();
    assert_eq!(dir.curr_filename(), "a2.png");
    assert!(dir.set_curr_img_index(2).is_ok());
    assert_eq!(dir.curr_filename(), "b.png");
    assert_eq!(dir.curr_descriptor().unwrap().path, "/p/b.png");
    assert!(matches!(dir.set_curr_img_index(4), Err(Error::Other(_))));
    assert_eq!(dir.image_by_index(1).unwrap().file_name, "a10.png");
    assert!(dir.image_by_index(4).is_none());
}

#[test]
fn directory_reread_keeps_current_file() {
    let mut dir = Directory::new();
    assert!(dir.change_directory_with_filename("/p", Ok(listing()), "b.png").is_ok());
    assert_eq!(dir.curr_filename(), "b.png");
    dir.run_pending_filter();
    let mut fewer = listing();
    fewer.retain(|e| e.file_name != "a2.png");
    assert!(dir.update_directory(Ok(fewer)).is_ok());
    assert_eq!(dir.curr_filename(), "b.png");
    dir.run_pending_filter();
    assert_eq!(dir.image_count(), Some(3));
    assert_eq!(dir.curr_img_index(), Some(1));
    let mut without_b = listing();
    without_b.retain(|e| e.file_name != "b.png" && e.file_name != "a2.png");
    assert!(dir.update_directory(Ok(without_b)).is_ok());
    assert_eq!(dir.curr_filename(), "c.jpg");
}

#[test]
fn directory_errors() {
    let mut dir = Directory::new();
    let e = dir.change_directory("/q", Err("permission denied".to_string())).unwrap_err();
    assert_eq!(e.to_string(), "Other error: permission denied");
    assert_eq!(Error::WaitingOnFolderFilter.to_string(), "The directory is still being filtered for images");
    let mut empty = Directory::new();
    assert!(empty.change_directory("/e", Ok(vec![])).is_ok());
    assert!(!empty.known_empty());
    empty.run_pending_filter();
    assert_eq!(empty.image_count(), Some(0));
    assert!(empty.known_empty());
}

#[test]
fn pending_requests_keep_arrival_order() {
    let mut p: PendingRequests<u32> = PendingRequests::new();
    assert_eq!(p.len(), 0);
    p.add_request(LoadRequest { req_id: 4, path: "/a".to_string() });
    p.add_request(LoadRequest { req_id: 9, path: "/b".to_string() });
    assert!(p.contains(&4) && p.expects_results(&9));
    assert_eq!(p.len(), 2);
    assert!(!p.add_load_result(LoadResult::Done { req_id: 77 }));
    assert!(!p.expects_results(&77));
    assert!(p.add_load_result(LoadResult::Start { req_id: 4, mod_time: None }));
    p.add_load_result(LoadResult::Frame {
        req_id: 4,
        image: 11,
        width: 1,
        height: 1,
        delay_nano: 0,
        orientation: Orientation::Deg0,
    });
    p.add_load_result(LoadResult::Done { req_id: 4 });
    p.set_finished(&4);
    assert!(!p.contains(&4));
    assert!(p.expects_results(&4));
    assert_eq!(p.len(), 1);
    let results = p.take_results(4).unwrap();
    let kinds: Vec<&str> = results
        .iter()
        .map(|r| match r {
            LoadResult::Start { .. } => "start",
            LoadResult::Frame { .. } => "frame",
            LoadResult::Done { .. } => "done",
            LoadResult::Failed { .. } => "failed",
        })
        .collect();
    assert_eq!(kinds, vec!["start", "frame", "done"]);
    assert!(results.iter().all(|r| r.req_id() == 4));
    assert!(!p.expects_results(&4));
    assert!(p.take_results(4).is_none());
    assert_eq!(p.cancelled(&9), Some(false));
    p.cancel_unfinished();
    assert_eq!(p.cancelled(&9), Some(true));
    assert!(p.get(&9).unwrap().is_cancelled());
    let mut ids = p.get_all_ids();
    ids.sort();
    assert_eq!(ids, vec![9]);
    p.set_finished(&9);
    assert!(!p.expects_results(&9));
    assert_eq!(p.len(), 0);
}

#[test]
fn loaded_image_is_shown() {
    let mut cache: ImageCache<u32> = ImageCache::new(100_000_000);
    assert_eq!(cache.remaining_capacity(), 100_000_000);
    let first = cache.load_specific("/p", Some("b.png"), Ok(listing()), None);
    assert!(matches!(first, Err(CacheError::WaitingOnLoader)));
    assert_eq!(cache.current_filename(), "b.png");
    assert_eq!(cache.current_file_path().as_deref(), Some("/p/b.png"));
    assert_eq!(cache.dir_path(), "/p");
    let reqs = cache.take_outgoing_requests();
    let id = request_for(&reqs, "/p/b.png");
    assert!(cache.take_outgoing_requests().is_empty());
    assert!(cache.expects_results(id));
    // Asked again before anything arrived: still waiting, and no second request.
    let again = cache.load_specific("/p", Some("b.png"), Err("unused".to_string()), None);
    assert!(matches!(again, Err(CacheError::WaitingOnLoader)));
    assert!(cache.take_outgoing_requests().iter().all(|r| r.req_id != id));
    assert_eq!(cache.priority_request_id(), id);
    deliver(&mut cache, id, &[(42, 10, 20)]);
    let shown = cache.load_specific("/p", Some("b.png"), Err("unused".to_string()), None).ok().unwrap();
    assert_eq!((shown.image, shown.width, shown.height), (42, 10, 20));
    assert_eq!(cache.current_frame_index(), 0);
    assert!(cache.loaded_still_image());
    assert!(cache.remaining_capacity() <= 100_000_000);
}

#[test]
fn animation_frames_wrap_around() {
    let mut cache: ImageCache<u32> = ImageCache::new(100_000_000);
    let _ = cache.load_specific("/p", Some("a2.png"), Ok(listing()), None);
    let id = request_for(&cache.take_outgoing_requests(), "/p/a2.png");
    deliver(&mut cache, id, &[(1, 4, 4), (2, 4, 4), (3, 4, 4)]);
    let f0 = cache.load_jump(0, 0).ok().unwrap();
    assert_eq!(f0.0.image, 1);
    assert_eq!(f0.1, "/p/a2.png");
    assert!(!cache.loaded_still_image());
    assert_eq!(cache.load_jump(0, 1).ok().unwrap().0.image, 2);
    assert_eq!(cache.load_jump(0, 2).ok().unwrap().0.image, 1);
    assert_eq!(cache.current_frame_index(), 0);
    assert_eq!(cache.load_jump(0, -1).ok().unwrap().0.image, 3);
    assert_eq!(cache.current_frame_index(), 2);
    // Frame numbers wrap around in both directions.
    assert_eq!(cache.load_jump(0, -3).ok().unwrap().0.image, 3);
    assert_eq!(cache.current_frame_index(), 2);
    assert_eq!(cache.load_jump(0, -5).ok().unwrap().0.image, 1);
    let specific = cache.load_specific("/p", Some("a2.png"), Err("unused".to_string()), Some(1)).ok().unwrap();
    assert_eq!(specific.image, 2);
}

#[test]
fn stepping_through_the_folder() {
    let mut cache: ImageCache<u32> = ImageCache::new(100_000_000);
    let _ = cache.load_specific("/p", Some("b.png"), Ok(listing()), None);
    let id_b = request_for(&cache.take_outgoing_requests(), "/p/b.png");
    deliver(&mut cache, id_b, &[(5, 2, 2)]);
    cache.run_pending_filter();
    assert_eq!(cache.current_file_index(), Some(2));
    assert_eq!(cache.current_dir_len(), Some(4));
    let next = cache.load_next();
    assert!(matches!(next, Err(CacheError::WaitingOnLoader)));
    assert_eq!(cache.current_filename(), "c.jpg");
    let id_c = request_for(&cache.take_outgoing_requests(), "/p/c.jpg");
    cache.receive_load_result(LoadResult::Start { req_id: id_c, mod_time: Some(7) });
    cache.receive_load_result(LoadResult::Failed { req_id: id_c });
    match cache.load_jump(0, 0) {
        Err(CacheError::FailedToLoadImage(failed)) => assert_eq!(failed, id_c),
        _ => panic!("the failed load is reported"),
    }
    let back = cache.load_prev().ok().unwrap();
    assert_eq!(back.0.image, 5);
    assert_eq!(back.1, "/p/b.png");
    assert_eq!(cache.current_file_index(), Some(2));
    // Two files on from b.png, among four images: a2.png.
    let far = cache.load_jump(2, 0);
    assert!(matches!(far, Err(CacheError::WaitingOnLoader)));
    assert_eq!(cache.current_filename(), "a2.png");
    assert_eq!(cache.current_file_index(), Some(0));
    let at = cache.load_at_index(2, None).ok().unwrap();
    assert_eq!((at.0.image, at.1.as_str()), (5, "/p/b.png"));
    assert!(matches!(cache.load_at_index(4, None), Err(CacheError::WaitingOnDirFilter)));
}

#[test]
fn cache_errors_by_input() {
    let mut cache: ImageCache<u32> = ImageCache::new(1_000_000);
    match cache.load_specific("/q", None, Err("denied".to_string()), None) {
        Err(CacheError::Directory(Error::Other(msg))) => assert_eq!(msg, "denied"),
        _ => panic!("the listing error is reported"),
    }
    let mut empty: ImageCache<u32> = ImageCache::new(1_000_000);
    assert!(matches!(empty.load_specific("/e", None, Ok(vec![]), None), Err(CacheError::NoCurrentFile)));
    assert!(!empty.has_current_file());
    assert!(matches!(empty.load_jump(2, 0), Err(CacheError::NoImageToJump)));
    empty.run_pending_filter();
    assert!(empty.known_empty());
    assert!(matches!(empty.load_jump(-3, 0), Err(CacheError::NoImageToJump)));
    let mut fresh: ImageCache<u32> = ImageCache::new(1_000_000);
    let _ = fresh.load_specific("/p", None, Ok(listing()), None);
    assert!(matches!(fresh.load_at_index(0, None), Err(CacheError::WaitingOnDirFilter)));
}

#[test]
fn another_folder_empties_the_cache() {
    let mut cache: ImageCache<u32> = ImageCache::new(1_000_000);
    let _ = cache.load_specific("/p", Some("b.png"), Ok(listing()), None);
    let id = request_for(&cache.take_outgoing_requests(), "/p/b.png");
    deliver(&mut cache, id, &[(9, 100, 100)]);
    assert!(cache.load_specific("/p", Some("b.png"), Err("unused".to_string()), None).is_ok());
    assert!(cache.remaining_capacity() < 1_000_000);
    let other = vec![entry("/o", "x.png", true)];
    let r = cache.load_specific("/o", None, Ok(other), None);
    assert!(matches!(r, Err(CacheError::WaitingOnLoader)));
    assert_eq!(cache.remaining_capacity(), 1_000_000);
    assert_eq!(cache.current_file_path().as_deref(), Some("/o/x.png"));
}

#[test]
fn results_of_a_folder_left_behind_are_ignored() {
    let mut cache: ImageCache<u32> = ImageCache::new(1_000_000);
    let _ = cache.load_specific("/p", Some("b.png"), Ok(listing()), None);
    let id = request_for(&cache.take_outgoing_requests(), "/p/b.png");
    let other = vec![entry("/o", "x.png", true)];
    let _ = cache.load_specific("/o", None, Ok(other), None);
    assert!(cache.expects_results(id));
    deliver(&mut cache, id, &[(9, 100, 100)]);
    cache.process_prefetched();
    assert_eq!(cache.remaining_capacity(), 1_000_000);
    assert_eq!(cache.current_file_path().as_deref(), Some("/o/x.png"));
}

#[test]
fn last_frame_before_the_first() {
    let mut cache: ImageCache<u32> = ImageCache::new(100_000_000);
    let _ = cache.load_specific("/p", Some("b.png"), Ok(listing()), None);
    let id = request_for(&cache.take_outgoing_requests(), "/p/b.png");
    deliver(&mut cache, id, &[(8, 2, 2)]);
    let f = cache.load_specific("/p", Some("b.png"), Err("unused".to_string()), Some(-1)).ok().unwrap();
    assert_eq!(f.image, 8);
    assert_eq!(cache.current_frame_index(), 0);
}

fn tiff_with_orientation(kind: u16, value: u16) -> Vec<u8> {
    let mut b = vec![0x49, 0x49, 0x2a, 0x00, 0x08, 0x00, 0x00, 0x00, 0x01, 0x00, 0x12, 0x01];
    b.extend_from_slice(&kind.to_le_bytes());
    b.extend_from_slice(&[0x01, 0x00, 0x00, 0x00]);
    b.extend_from_slice(&value.to_le_bytes());
    b.extend_from_slice(&[0x00, 0x00, 0x00, 0x00, 0x00, 0x00]);
    b
}

#[test]
fn formats_from_bytes_then_extension() {
    let mut png = vec![0x89, b'P', b'N', b'G', 0x0d, 0x0a, 0x1a, 0x0a];
    png.resize(512, 0);
    assert_eq!(detect_format(Some(&png), "picture.gif"), Ok(ImgFormat::Png));
    let zeros = vec![0u8; 512];
    assert_eq!(detect_format(Some(&zeros), "picture.gif"), Ok(ImgFormat::Gif));
    assert_eq!(detect_format(None, "/a/b/photo.jpeg"), Ok(ImgFormat::Jpeg));
    assert_eq!(detect_format(None, "/a/b/scan.tif"), Ok(ImgFormat::Tiff));
    assert_eq!(detect_format(None, "/a/b/noext"), Err(FormatError::Unknown));
}

#[test]
fn orientations_from_exif_data() {
    assert_eq!(detect_orientation(&[]), Err(OrientationError::NoExif));
    assert_eq!(detect_orientation(&tiff_with_orientation(3, 6)), Ok(Orientation::Deg270));
    assert_eq!(detect_orientation(&tiff_with_orientation(3, 3)), Ok(Orientation::Deg180));
    assert_eq!(detect_orientation(&tiff_with_orientation(3, 9)), Ok(Orientation::Deg0));
    assert_eq!(detect_orientation(&tiff_with_orientation(4, 6)), Err(OrientationError::NotShort));
}

fn png_bytes(width: u32, height: u32, pixels: &[u8]) -> Vec<u8> {
    let mut out = Vec::new();
    image::codecs::png::PngEncoder::new(&mut out)
        .encode(pixels, width, height, image::ColorType::Rgba8)
        .unwrap();
    out
}

fn gif_bytes(frames: &[(u8, u32)]) -> Vec<u8> {
    let mut out = Vec::new();
    {
        let mut enc = image::codecs::gif::GifEncoder::new(&mut out);
        for &(shade, delay_ms) in frames {
            let buf = image::RgbaImage::from_pixel(2, 2, image::Rgba([shade, shade, shade, 255]));
            let delay = image::Delay::from_numer_denom_ms(delay_ms, 1);
            enc.encode_frame(image::Frame::from_parts(buf, 0, 0, delay)).unwrap();
        }
    }
    out
}

fn kinds(results: &[LoadResult<Vec<u8>>]) -> Vec<&'static str> {
    results
        .iter()
        .map(|r| match r {
            LoadResult::Start { .. } => "start",
            LoadResult::Frame { .. } => "frame",
            LoadResult::Done { .. } => "done",
            LoadResult::Failed { .. } => "failed",
        })
        .collect()
}

#[test]
fn still_image_is_decoded_into_one_frame() {
    let pixels = [10u8, 20, 30, 255, 40, 50, 60, 255];
    let bytes = png_bytes(2, 1, &pixels);
    let start = if bytes.len() >= 512 { Some(&bytes[..512]) } else { None };
    let results = load_results(7, &bytes, start, "/p/a.png", Some(99));
    assert_eq!(kinds(&results), vec!["start", "frame", "done"]);
    match &results[0] {
        LoadResult::Start { req_id, mod_time } => assert_eq!((*req_id, *mod_time), (7, Some(99))),
        _ => panic!("a start comes first"),
    }
    match &results[1] {
        LoadResult::Frame { req_id, image, width, height, delay_nano, orientation } => {
            assert_eq!((*req_id, *width, *height, *delay_nano), (7, 2, 1, 0));
            assert_eq!(image.as_slice(), &pixels[..]);
            assert_eq!(*orientation, Orientation::Deg0);
        }
        _ => panic!("the frame comes next"),
    }
}

#[test]
fn animation_frames_keep_their_delays() {
    let bytes = gif_bytes(&[(0, 100), (255, 250)]);
    let results = load_results(3, &bytes, None, "/p/anim.gif", None);
    assert_eq!(kinds(&results), vec!["start", "frame", "frame", "done"]);
    let delays: Vec<u64> = results
        .iter()
        .filter_map(|r| match r {
            LoadResult::Frame { delay_nano, .. } => Some(*delay_nano),
            _ => None,
        })
        .collect();
    assert_eq!(delays, vec![100_000_000, 250_000_000]);
}

#[test]
fn undecodable_files_fail() {
    let results = load_results(5, b"not an image at all", None, "/p/broken.png", None);
    assert_eq!(kinds(&results), vec!["start", "failed"]);
    let unknown = load_results(6, b"plain text", None, "/p/notes", None);
    assert_eq!(kinds(&unknown), vec!["start", "failed"]);
}

#[test]
fn one_long_number_in_a_folder_is_sorted() {
    let mut dir = Directory::new();
    let long = vec![entry("/l", "x1234567890123456789012.png", true), entry("/l", "a.png", true)];
    assert!(dir.change_directory("/l", Ok(long)).is_ok());
    assert_eq!(dir.curr_filename(), "a.png");
    dir.run_pending_filter();
    assert_eq!(dir.image_count(), Some(2));
    let mut two = Directory::new();
    let both = vec![
        entry("/t", "x1234567890123456789012.png", true),
        entry("/t", "y1234567890123456789012.png", true),
    ];
    assert!(matches!(two.change_directory("/t", Ok(both)), Err(Error::Other(_))));
}
