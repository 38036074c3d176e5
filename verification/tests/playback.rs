use emulsion::gui::NextUpdate;
use emulsion::configuration::{Configuration, CustomCommand};
use emulsion::gui::RenderValidity;
use emulsion::input_handling::Modifiers;
use emulsion::viewer::{drag_target_path, DragEvent, HoverState, ViewerAction};
use emulsion::image_cache::directory::ListedEntry;
use emulsion::image_cache::image_loader::{LoadRequest as FileRequest, LoadResult, Orientation};
use emulsion::playback::{
    cache_capacity, loader_thread_count, FileTarget, ImgSequencePlayer, LoadRequest, LoadedImgPath,
    PlaybackKind, PlaybackManager, PlaybackState, FOLDER_FRAME_NANOS, RETRY_NANOS,
};

fn entry(name: &str) -> ListedEntry {
    ListedEntry {
        path: format!("/p/{}", name),
        file_name: name.to_string(),
        is_file_or_symlink: true,
        modified: Some(3),
    }
}

fn listing() -> Vec<ListedEntry> {
    vec![entry("b.png"), entry("a.png"), entry("c.png")]
}

fn open_file(name: &str) -> LoadRequest {
    LoadRequest::FilePath(FileTarget {
        path: format!("/p/{}", name),
        location: Ok(("/p".to_string(), Some(name.to_string()))),
        listing: Ok(listing()),
    })
}

fn answer_requests(m: &mut PlaybackManager<u32>, image: u32) -> Vec<FileRequest> {
    let reqs = m.cache_mut().take_outgoing_requests();
    for r in reqs.iter() {
        let id = r.req_id;
        m.cache_mut().receive_load_result(LoadResult::Start { req_id: id, mod_time: Some(3) });
        m.cache_mut().receive_load_result(LoadResult::Frame {
            req_id: id,
            image,
            width: 8,
            height: 8,
            delay_nano: 0,
            orientation: Orientation::Deg0,
        });
        m.cache_mut().receive_load_result(LoadResult::Done { req_id: id });
    }
    reqs
}

fn shown(m: &PlaybackManager<u32>) -> Option<String> {
    match m.shown_file_path() {
        LoadedImgPath::Loaded(p) => Some(p.clone()),
        _ => None,
    }
}

#[test]
fn system_derived_settings() {
    assert_eq!(cache_capacity(Some(8_000_000)), 1_024_000_000);
    assert_eq!(cache_capacity(Some(15)), 1024);
    assert_eq!(cache_capacity(None), 500_000_000);
    assert_eq!(loader_thread_count(Some(1)), 2);
    assert_eq!(loader_thread_count(Some(3)), 3);
    assert_eq!(loader_thread_count(Some(64)), 4);
    assert_eq!(loader_thread_count(None), 4);
}

#[test]
fn player_states() {
    let mut p: ImgSequencePlayer<u32> = ImgSequencePlayer::new(PlaybackKind::Folder, 0);
    assert_eq!(p.playback_state(), PlaybackState::Paused);
    assert!(matches!(p.pending_request(), LoadRequest::Nothing));
    assert!(matches!(p.shown_file_path(), LoadedImgPath::NotYetLoaded));
    assert!(p.image_texture().is_none());
    p.start_playback_forward(10);
    assert_eq!(p.playback_state(), PlaybackState::Forward);
    p.start_presentation(20);
    assert_eq!(p.playback_state(), PlaybackState::Present);
    p.pause_playback();
    assert_eq!(p.playback_state(), PlaybackState::Paused);
    p.request_load(LoadRequest::LoadNext);
    assert!(matches!(p.pending_request(), LoadRequest::LoadNext));
    assert!(!LoadedImgPath::ErrLoading("x".to_string()).is_loaded());
    assert!(LoadedImgPath::Loaded("x".to_string()).is_loaded());
}

#[test]
fn idle_manager_waits_for_events() {
    let mut m: PlaybackManager<u32> = PlaybackManager::new(1_000_000, 0);
    assert_eq!(m.update_image(5), NextUpdate::Latest);
    assert!(shown(&m).is_none());
    assert!(m.cache_mut().take_outgoing_requests().is_empty());
}

#[test]
fn opening_a_file_waits_then_shows_it() {
    let mut m: PlaybackManager<u32> = PlaybackManager::new(100_000_000, 0);
    m.request_load(open_file("b.png"));
    let wish = m.update_image(1_000);
    assert_eq!(wish, NextUpdate::WaitUntil(1_000 + RETRY_NANOS));
    assert!(shown(&m).is_none());
    assert!(matches!(m.folder_player().pending_request(), LoadRequest::Jump(0)));
    let reqs = answer_requests(&mut m, 42);
    assert!(reqs.iter().any(|r| r.path == "/p/b.png"));
    m.update_image(2_000);
    assert_eq!(shown(&m).as_deref(), Some("/p/b.png"));
    let tex = m.image_texture().unwrap();
    assert_eq!((tex.image, tex.width, tex.height), (42, 8, 8));
    assert_eq!(m.playback_state(), PlaybackState::Paused);
}

#[test]
fn stepping_forward_through_the_folder() {
    let mut m: PlaybackManager<u32> = PlaybackManager::new(100_000_000, 0);
    m.request_load(open_file("a.png"));
    m.update_image(1_000);
    answer_requests(&mut m, 1);
    m.update_image(2_000);
    assert_eq!(shown(&m).as_deref(), Some("/p/a.png"));
    m.cache_mut().run_pending_filter();
    assert_eq!(m.current_file_index(), Some(0));
    assert_eq!(m.current_dir_len(), Some(3));
    m.request_load(LoadRequest::LoadNext);
    m.update_image(3_000);
    answer_requests(&mut m, 2);
    m.update_image(4_000);
    assert_eq!(shown(&m).as_deref(), Some("/p/b.png"));
    assert_eq!(m.image_texture().unwrap().image, 2);
    m.request_load(LoadRequest::LoadPrevious);
    m.update_image(5_000);
    assert_eq!(shown(&m).as_deref(), Some("/p/a.png"));
    m.request_load(LoadRequest::LoadAtIndex(1));
    m.update_image(6_000);
    assert_eq!(shown(&m).as_deref(), Some("/p/b.png"));
}

#[test]
fn playback_toggles() {
    let mut m: PlaybackManager<u32> = PlaybackManager::new(100_000_000, 0);
    m.request_load(open_file("a.png"));
    m.update_image(1_000);
    answer_requests(&mut m, 1);
    m.update_image(2_000);
    m.toggle_playback(PlaybackState::Forward, 3_000);
    assert_eq!(m.playback_state(), PlaybackState::Forward);
    // A frame of a folder is shown for 40 ms: after that the next image is asked for.
    m.update_image(3_000 + FOLDER_FRAME_NANOS + 1);
    let reqs = m.cache_mut().take_outgoing_requests();
    assert!(reqs.iter().any(|r| r.path == "/p/b.png"));
    m.toggle_playback(PlaybackState::Present, 4_000);
    assert_eq!(m.playback_state(), PlaybackState::Present);
    m.toggle_playback(PlaybackState::Present, 5_000);
    assert_eq!(m.playback_state(), PlaybackState::Paused);
}

#[test]
fn random_presentation_needs_a_filtered_folder() {
    let mut m: PlaybackManager<u32> = PlaybackManager::new(100_000_000, 0);
    m.request_load(open_file("a.png"));
    m.update_image(1_000);
    assert!(!m.start_random_presentation(2_000));
    m.cache_mut().run_pending_filter();
    assert!(m.start_random_presentation(3_000));
    assert_eq!(m.playback_state(), PlaybackState::RandomPresent);
}

#[test]
fn random_presentation_shows_images_of_the_folder() {
    let mut m: PlaybackManager<u32> = PlaybackManager::new(100_000_000, 0);
    m.request_load(open_file("a.png"));
    m.update_image(1_000);
    answer_requests(&mut m, 1);
    m.update_image(2_000);
    m.cache_mut().run_pending_filter();
    assert!(m.start_random_presentation(3_000));
    m.update_image(4_000);
    answer_requests(&mut m, 7);
    m.update_image(5_000);
    let path = shown(&m).unwrap();
    assert!(["/p/a.png", "/p/b.png", "/p/c.png"].contains(&path.as_str()));
    assert_eq!(m.playback_state(), PlaybackState::RandomPresent);
}

#[test]
fn actions_drive_the_players() {
    let mut m: PlaybackManager<u32> = PlaybackManager::new(100_000_000, 0);
    m.apply_action(ViewerAction::PlayAnim, 10);
    assert_eq!(m.playback_state(), PlaybackState::Forward);
    m.apply_action(ViewerAction::PlayAnim, 20);
    assert_eq!(m.playback_state(), PlaybackState::Paused);
    m.apply_action(ViewerAction::PlayPresent, 30);
    assert_eq!(m.playback_state(), PlaybackState::Present);
    m.apply_action(ViewerAction::ImgNext, 40);
    assert!(matches!(m.folder_player().pending_request(), LoadRequest::LoadNext));
    m.apply_action(ViewerAction::ImgPrev, 50);
    assert!(matches!(m.folder_player().pending_request(), LoadRequest::LoadPrevious));
    m.apply_action(ViewerAction::ImgFit, 60);
    assert!(matches!(m.folder_player().pending_request(), LoadRequest::LoadPrevious));
    assert_eq!(m.playback_state(), PlaybackState::Present);
}

#[test]
fn a_cancelled_drag_asks_for_the_file_shown_before() {
    let mut m: PlaybackManager<u32> = PlaybackManager::new(100_000_000, 0);
    let mut validity = RenderValidity::new();
    validity.make_valid();
    let mut state = HoverState::Idle;
    let mut shown = "/p/a.png".to_string();
    for name in ["/q/x.png", "/q/y.png"] {
        let event = DragEvent::Hovered(name.to_string());
        let path = drag_target_path(&state, &event).unwrap();
        let target = FileTarget { path: path.clone(), location: Err("not read".to_string()), listing: Err(String::new()) };
        state = m.apply_drag(&mut validity, state, event, shown.clone(), Some(target));
        shown = path;
        assert!(!validity.get());
        validity.make_valid();
    }
    let path = drag_target_path(&state, &DragEvent::Cancelled).unwrap();
    assert_eq!(path, "/p/a.png");
    let target = FileTarget { path: path.clone(), location: Err("not read".to_string()), listing: Err(String::new()) };
    let end = m.apply_drag(&mut validity, state, DragEvent::Cancelled, shown, Some(target));
    assert_eq!(end, HoverState::Idle);
    assert!(!validity.get());
    match m.folder_player().pending_request() {
        LoadRequest::FilePath(t) => assert_eq!(t.path, "/p/a.png"),
        _ => panic!("the earlier file is asked for"),
    }
}

#[test]
fn commands_run_only_while_an_image_is_shown() {
    let config = Configuration {
        bindings: None,
        updates: None,
        commands: Some(vec![CustomCommand {
            input: vec!["e".to_string()],
            program: "edit".to_string(),
            args: Some(vec!["${img}".to_string(), "${folder}".to_string()]),
            envs: None,
        }]),
    };
    let none = Modifiers { alt: false, ctrl: false, logo: false };
    let mut m: PlaybackManager<u32> = PlaybackManager::new(100_000_000, 0);
    assert!(m.commands_for_key(&config, "e", none).is_empty());
    m.request_load(open_file("a.png"));
    m.update_image(1_000);
    answer_requests(&mut m, 1);
    m.update_image(2_000);
    let cmds = m.commands_for_key(&config, "e", none);
    assert_eq!(cmds.len(), 1);
    assert_eq!(cmds[0].args, vec!["/p/a.png".to_string(), "/p".to_string()]);
}
