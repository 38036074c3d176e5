use emulsion::configuration::{Configuration, CustomCommand, EnvVar};
use emulsion::image_cache::image_loader::is_file_supported;
use emulsion::input_handling::{
    action_triggered, char_to_input_key, default_keys, keys_triggered, substitute_command_parameters,
    triggered_commands, Modifiers, IMG_NEXT_NAME, PLAY_ANIM_NAME,
};
use emulsion::viewer::{
    escape_outcome, is_double_click, movement_after_key, on_drag_event, triggered_actions, DragEvent, EscapeOutcome,
    HelpScreen, HoverState, MovementDir, ViewerAction,
};

const NONE: Modifiers = Modifiers { alt: false, ctrl: false, logo: false };
const ALT: Modifiers = Modifiers { alt: true, ctrl: false, logo: false };
const CTRL: Modifiers = Modifiers { alt: false, ctrl: true, logo: false };

fn strings(v: &[&str]) -> Vec<String> {
    v.iter().map(|s| s.to_string()).collect()
}

#[test]
fn typed_characters_become_input_names() {
    assert_eq!(char_to_input_key(' '), "space");
    assert_eq!(char_to_input_key('+'), "add");
    assert_eq!(char_to_input_key('x'), "x");
    assert_eq!(char_to_input_key('é'), "é");
}

#[test]
fn bindings_match_key_and_exact_modifiers() {
    let keys = strings(&["Alt+A", "Alt+V"]);
    assert!(keys_triggered(&keys, "a", ALT));
    assert!(keys_triggered(&keys, "v", ALT));
    assert!(!keys_triggered(&keys, "a", NONE));
    assert!(!keys_triggered(&keys, "a", Modifiers { alt: true, ctrl: true, logo: false }));
    let spaced = strings(&["  Ctrl + Q "]);
    assert!(keys_triggered(&spaced, "q", CTRL));
    assert!(!keys_triggered(&spaced, "Q", CTRL));
    assert!(keys_triggered(&strings(&["logo+alt+ctrl+x"]), "x", Modifiers { alt: true, ctrl: true, logo: true }));
}

#[test]
fn empty_binding_list_never_triggers() {
    assert!(!keys_triggered(&[], "a", NONE));
    assert!(!keys_triggered(&strings(&[""]), "a", NONE));
    assert!(keys_triggered(&strings(&[""]), "", NONE));
}

#[test]
fn default_bindings() {
    assert_eq!(default_keys(IMG_NEXT_NAME).unwrap(), strings(&["D", "Right", "PageDown"]));
    assert_eq!(default_keys(PLAY_ANIM_NAME).unwrap(), strings(&["Alt+A", "Alt+V"]));
    assert_eq!(default_keys("no_such_action"), None);
    let config = Configuration::default();
    assert!(action_triggered(&config, IMG_NEXT_NAME, "right", NONE));
    assert!(action_triggered(&config, "img_prev", "pageup", NONE));
    assert!(!action_triggered(&config, IMG_NEXT_NAME, "left", NONE));
}

#[test]
fn configured_bindings_replace_defaults() {
    let config = Configuration {
        bindings: Some(vec![("img_next".to_string(), strings(&["N"]))]),
        updates: None,
        commands: None,
    };
    assert!(action_triggered(&config, IMG_NEXT_NAME, "n", NONE));
    assert!(!action_triggered(&config, IMG_NEXT_NAME, "right", NONE));
    assert!(action_triggered(&config, "img_prev", "left", NONE));
}

#[test]
fn actions_triggered_in_view_order() {
    let config = Configuration::default();
    assert_eq!(triggered_actions(&config, "d", NONE), vec![ViewerAction::ImgNext]);
    assert_eq!(triggered_actions(&config, "f11", NONE), vec![ViewerAction::ToggleFullscreen]);
    assert_eq!(triggered_actions(&config, "p", ALT), vec![ViewerAction::PlayPresentRnd]);
    assert!(triggered_actions(&config, "z", NONE).is_empty());
    let both = Configuration {
        bindings: Some(vec![
            ("img_del".to_string(), strings(&["X"])),
            ("escape".to_string(), strings(&["X"])),
        ]),
        updates: None,
        commands: None,
    };
    assert_eq!(triggered_actions(&both, "x", NONE), vec![ViewerAction::Escape, ViewerAction::ImgDel]);
}

#[test]
fn command_parameters_substituted() {
    assert_eq!(
        substitute_command_parameters("--open=${img} in ${folder}", "/p/a.png", "/p"),
        "--open=/p/a.png in /p"
    );
    assert_eq!(substitute_command_parameters("${img}${img}", "x", "y"), "xx");
    assert_eq!(substitute_command_parameters("plain", "x", "y"), "plain");
    assert_eq!(substitute_command_parameters("${imgx} ${folder}}", "I", "F"), "${imgx} F}");
}

#[test]
fn commands_triggered_with_arguments() {
    let config = Configuration {
        bindings: None,
        updates: None,
        commands: Some(vec![
            CustomCommand {
                input: strings(&["Ctrl+E"]),
                program: "editor".to_string(),
                args: Some(strings(&["${img}", "-d", "${folder}"])),
                envs: Some(vec![EnvVar { name: "MODE".to_string(), value: "quick".to_string() }]),
            },
            CustomCommand { input: strings(&["E"]), program: "other".to_string(), args: None, envs: None },
            CustomCommand { input: strings(&["ctrl+e"]), program: "second".to_string(), args: None, envs: None },
        ]),
    };
    let cmds = triggered_commands(&config, "e", CTRL, "/p/a.png", "/p");
    assert_eq!(cmds.len(), 2);
    assert_eq!(cmds[0].program, "editor");
    assert_eq!(cmds[0].args, strings(&["/p/a.png", "-d", "/p"]));
    assert_eq!(cmds[0].envs, vec![("MODE".to_string(), "quick".to_string())]);
    assert_eq!(cmds[1].program, "second");
    assert!(cmds[1].args.is_empty());
    assert!(triggered_commands(&Configuration::default(), "e", CTRL, "a", "b").is_empty());
}

#[test]
fn escape_and_double_click() {
    assert_eq!(escape_outcome(true), EscapeOutcome::LeaveFullscreen);
    assert_eq!(escape_outcome(false), EscapeOutcome::Exit);
    assert!(is_double_click(0));
    assert!(is_double_click(249));
    assert!(!is_double_click(250));
    assert!(MovementDir::Positive.moving());
    assert!(!MovementDir::Still.moving());
}

#[test]
fn dragging_away_restores_the_shown_file() {
    let (s1, load1) = on_drag_event(HoverState::Idle, DragEvent::Hovered("/d/new.png".to_string()), "/d/old.png".to_string());
    assert_eq!(load1.as_deref(), Some("/d/new.png"));
    assert_eq!(s1, HoverState::ItemHovered { prev_path: "/d/old.png".to_string() });
    let (s2, load2) = on_drag_event(s1.clone(), DragEvent::Hovered("/d/third.png".to_string()), "/d/new.png".to_string());
    assert_eq!(load2.as_deref(), Some("/d/third.png"));
    assert_eq!(s2, s1);
    let (s3, load3) = on_drag_event(s2, DragEvent::Cancelled, "/d/third.png".to_string());
    assert_eq!(s3, HoverState::Idle);
    assert_eq!(load3.as_deref(), Some("/d/old.png"));
    let (s4, load4) = on_drag_event(HoverState::Idle, DragEvent::Cancelled, "/x".to_string());
    assert_eq!((s4, load4), (HoverState::Idle, None));
    let (s5, load5) = on_drag_event(s1, DragEvent::Dropped("/e/f.png".to_string()), "/d/new.png".to_string());
    assert_eq!((s5, load5.as_deref()), (HoverState::Idle, Some("/e/f.png")));
}

#[test]
fn help_screen_redraws_after_visibility_change() {
    let mut h = HelpScreen::new(640, 480);
    assert!(!h.visible && !h.is_valid());
    h.mark_drawn();
    assert!(h.is_valid());
    h.set_visible(true);
    assert!(h.visible && !h.is_valid());
    assert_eq!((h.width, h.height), (640, 480));
}

#[test]
fn documented_binding_forms() {
    // An empty list turns an action off.
    let off = Configuration {
        bindings: Some(vec![("img_del".to_string(), vec![])]),
        updates: None,
        commands: None,
    };
    assert!(!action_triggered(&off, "img_del", "delete", NONE));
    // Spaces around the parts are trimmed, and inputs are not case sensitive.
    assert!(keys_triggered(&strings(&[" ctrl+ x"]), "x", CTRL));
    assert!(keys_triggered(&strings(&["ctrl + alt+u  "]), "u", Modifiers { alt: true, ctrl: true, logo: false }));
    assert!(keys_triggered(&strings(&["CTRL+X"]), "x", CTRL));
    // Typeable characters, unicode ones included, and the two special names.
    assert!(keys_triggered(&strings(&["ø"]), &char_to_input_key('ø'), NONE));
    assert!(keys_triggered(&strings(&["💜"]), &char_to_input_key('💜'), NONE));
    assert!(keys_triggered(&strings(&["space"]), &char_to_input_key(' '), NONE));
    assert!(keys_triggered(&strings(&["ctrl+add"]), &char_to_input_key('+'), CTRL));
    // Action names are case sensitive.
    assert_eq!(default_keys("IMG_NEXT"), None);
}

#[test]
fn movement_keys_start_and_stop() {
    use_movement();
}

fn use_movement() {
    let (m1, starts) = movement_after_key(MovementDir::Still, MovementDir::Positive, true);
    assert_eq!((m1, starts), (MovementDir::Positive, true));
    let (m2, starts2) = movement_after_key(m1, MovementDir::Positive, true);
    assert_eq!((m2, starts2), (MovementDir::Positive, false));
    let (m3, _) = movement_after_key(m2, MovementDir::Negative, false);
    assert_eq!(m3, MovementDir::Positive);
    let (m4, _) = movement_after_key(m3, MovementDir::Positive, false);
    assert_eq!(m4, MovementDir::Still);
    let (m5, starts5) = movement_after_key(MovementDir::Positive, MovementDir::Negative, true);
    assert_eq!((m5, starts5), (MovementDir::Negative, true));
}

#[test]
fn many_hovers_then_cancel_restore() {
    let mut state = HoverState::Idle;
    let mut shown = "/d/first.png".to_string();
    for name in ["/d/a.png", "/d/b.png", "/d/c.png"] {
        let (next, load) = on_drag_event(state, DragEvent::Hovered(name.to_string()), shown.clone());
        state = next;
        shown = load.unwrap();
    }
    let (end, load) = on_drag_event(state, DragEvent::Cancelled, shown);
    assert_eq!(end, HoverState::Idle);
    assert_eq!(load.as_deref(), Some("/d/first.png"));
}

#[test]
fn key_names_ignore_case() {
    for key in ["Ctrl+Shift", "CTRL+E", "ctrl+e", "Ctrl + E"] {
        let triggered = keys_triggered(&strings(&[key]), "e", CTRL);
        assert_eq!(triggered, key != "Ctrl+Shift", "{}", key);
    }
    assert!(keys_triggered(&strings(&["PageDown"]), "pagedown", NONE));
    assert!(is_file_supported("HOLIDAY.JPG"));
}
