use emulsion::cmd_line::{configuration_help, Args};
use emulsion::configuration::{
    Cache, CacheUpdateSection, ConfigUpdateSection, Configuration, IncompleteCache, UnixTime,
    WindowSection, UPDATE_CHECK_INTERVAL_SECS,
};
use emulsion::gui::{
    aggregate_control_flow, request_exit, set_control_flow, ControlFlow, ExitRequest, NextUpdate,
    RenderValidity, MIN_WAIT_NANOS,
};
use emulsion::parallel_action::ParallelAction;
use emulsion::text::{chars_of, concat_str, replace_chars, split_chars, string_from_chars, trim_chars};
use emulsion::version::{check_for_updates, compare_release, parse_u32, IntErrorKind, Version};

fn v(major: u32, minor: u32, patch: u32) -> Version {
    Version { major, minor, patch }
}

#[test]
fn version_parse_drops_leading_letters() {
    assert_eq!(Version::parse("v1.9").unwrap(), v(1, 9, 0));
    assert_eq!(Version::parse("release10.2.0").unwrap(), v(10, 2, 0));
}

#[test]
fn version_parse_fills_missing_parts_with_zero() {
    assert_eq!(Version::parse("").unwrap(), v(0, 0, 0));
    assert_eq!(Version::parse("3").unwrap(), v(3, 0, 0));
    assert_eq!(Version::parse("3..7").unwrap(), v(3, 0, 7));
    assert_eq!(Version::parse("1.2.3.4").unwrap(), v(1, 2, 3));
}

#[test]
fn version_parse_errors() {
    assert_eq!(Version::parse("1.x").unwrap_err().kind, IntErrorKind::InvalidDigit);
    assert_eq!(Version::parse("1.-2").unwrap_err().kind, IntErrorKind::InvalidDigit);
    assert_eq!(Version::parse("4294967296").unwrap_err().kind, IntErrorKind::PosOverflow);
    assert_eq!(Version::parse("4294967295.1").unwrap(), v(u32::MAX, 1, 0));
}

#[test]
fn parse_u32_follows_from_str() {
    let p = |s: &str| parse_u32(&s.chars().collect::<Vec<char>>());
    assert_eq!(p("+17").unwrap(), 17);
    assert_eq!(p("007").unwrap(), 7);
    assert_eq!(p("").unwrap_err().kind, IntErrorKind::Empty);
    assert_eq!(p("+").unwrap_err().kind, IntErrorKind::InvalidDigit);
    assert_eq!(p("12a").unwrap_err().kind, IntErrorKind::InvalidDigit);
    assert_eq!(p("99999999999").unwrap_err().kind, IntErrorKind::PosOverflow);
    for s in ["0", "1", "42", "4294967295", "123456"] {
        assert_eq!(p(s).unwrap(), s.parse::<u32>().unwrap());
    }
}

#[test]
fn version_prints_three_numbers() {
    assert_eq!(v(10, 2, 0).to_string(), "10.2.0");
    assert_eq!(v(0, 0, 0).to_string(), "0.0.0");
    assert_eq!(v(u32::MAX, 7, 1234).to_string(), "4294967295.7.1234");
}

#[test]
fn version_print_then_parse_round_trips() {
    for ver in [v(0, 0, 0), v(1, 9, 0), v(10, 2, 0), v(u32::MAX, u32::MAX, u32::MAX), v(7, 100, 3)] {
        assert_eq!(Version::parse(&ver.to_string()).unwrap(), ver);
    }
}

#[test]
fn version_order_is_strict_and_total() {
    let all = [v(1, 0, 0), v(1, 0, 1), v(1, 1, 0), v(2, 0, 0), v(0, 9, 9)];
    for a in all.iter() {
        for b in all.iter() {
            assert!(!(a.is_newer_than(b) && b.is_newer_than(a)));
            assert!(a == b || a.is_newer_than(b) || b.is_newer_than(a));
            assert_eq!(a.is_newer_than(b), a > b);
        }
    }
    assert!(v(2, 0, 0).is_newer_than(&v(1, 99, 99)));
    assert!(!v(1, 2, 3).is_newer_than(&v(1, 2, 3)));
}

#[test]
fn release_comparison_against_this_build() {
    assert_eq!(Version::cargo_pkg_version(), v(10, 2, 0));
    assert_eq!(compare_release("v10.2.1").unwrap(), true);
    assert_eq!(compare_release("v11").unwrap(), true);
    assert_eq!(compare_release("v10.2.0").unwrap(), false);
    assert_eq!(compare_release("9.99.99").unwrap(), false);
    assert_eq!(compare_release("v1.beta").unwrap_err().kind, IntErrorKind::InvalidDigit);
    assert!(!check_for_updates());
}

#[test]
fn text_helpers() {
    let cs: Vec<char> = "a.b..c".chars().collect();
    let parts: Vec<String> = split_chars(&cs, '.').iter().map(|p| p.iter().collect()).collect();
    assert_eq!(parts, vec!["a", "b", "", "c"]);
    assert_eq!(split_chars(&Vec::new(), '.').len(), 1);
    let t: String = trim_chars(&"  \t alt+ctrl+A \n".chars().collect::<Vec<char>>()).iter().collect();
    assert_eq!(t, "alt+ctrl+A");
    let t2: String = trim_chars(&"\u{3000}x\u{2003}".chars().collect::<Vec<char>>()).iter().collect();
    assert_eq!(t2, "x");
    let s: Vec<char> = "aXbXX".chars().collect();
    let r: String = replace_chars(&s, &['X'], &['y', 'z']).iter().collect();
    assert_eq!(r, "ayzbyzyz");
    let none: String = replace_chars(&s, &['Q'], &['y']).iter().collect();
    assert_eq!(none, "aXbXX");
    assert_eq!(concat_str("ab", "cd"), "abcd");
    assert_eq!(string_from_chars(&chars_of("héllo")), "héllo");
}

#[test]
fn configuration_defaults() {
    let w = WindowSection::default();
    assert_eq!((w.dark, w.win_w, w.win_h, w.win_x, w.win_y), (false, 580, 558, 64, 64));
    assert!(ConfigUpdateSection::default().check_updates);
    let c = Cache::default();
    assert_eq!(c.window, w);
    assert_eq!(c.updates.last_checked, 0);
    assert!(Configuration::default().check_updates_enabled());
    let off = Configuration {
        bindings: None,
        updates: Some(ConfigUpdateSection { check_updates: false }),
        commands: None,
    };
    assert!(!off.check_updates_enabled());
}

#[test]
fn incomplete_cache_takes_defaults() {
    let dark = WindowSection { dark: true, win_w: 1, win_h: 2, win_x: -3, win_y: 4 };
    let c = Cache::from(IncompleteCache { window: Some(dark), updates: None });
    assert_eq!(c.window, dark);
    assert_eq!(c.updates.last_checked, 0);
    let c2 = Cache::from(IncompleteCache {
        window: None,
        updates: Some(CacheUpdateSection { last_checked: 99 }),
    });
    assert_eq!(c2.window, WindowSection::default());
    assert_eq!(c2.updates.last_checked, 99);
}

#[test]
fn update_check_due_once_a_day() {
    let mut c = CacheUpdateSection::default();
    let t = |secs: u64| Some(UnixTime { secs, nanos: 0 });
    assert!(c.update_check_needed_at(t(UPDATE_CHECK_INTERVAL_SECS + 1)));
    c.set_update_check_time_to(t(1_000_000));
    assert_eq!(c.last_checked, 1_000_000);
    assert!(!c.update_check_needed_at(t(1_000_000)));
    assert!(!c.update_check_needed_at(t(1_000_000 + UPDATE_CHECK_INTERVAL_SECS)));
    assert!(c.update_check_needed_at(t(1_000_000 + UPDATE_CHECK_INTERVAL_SECS + 1)));
    // A clock set before the last check is no reason to check.
    assert!(!c.update_check_needed_at(t(5)));
}

#[test]
fn next_update_aggregate() {
    let all = [NextUpdate::Soonest, NextUpdate::WaitUntil(5), NextUpdate::WaitUntil(9), NextUpdate::Latest];
    for a in all {
        assert_eq!(a.aggregate(NextUpdate::Latest), a);
        assert_eq!(a.aggregate(NextUpdate::Soonest), NextUpdate::Soonest);
        assert_eq!(a.aggregate(a), a);
        for b in all {
            assert_eq!(a.aggregate(b), b.aggregate(a));
            for c in all {
                assert_eq!(a.aggregate(b).aggregate(c), a.aggregate(b.aggregate(c)));
            }
        }
    }
    assert_eq!(NextUpdate::WaitUntil(9).aggregate(NextUpdate::WaitUntil(5)), NextUpdate::WaitUntil(5));
}

#[test]
fn render_validity_and_exit() {
    let mut r = RenderValidity::new();
    assert!(!r.get());
    r.make_valid();
    assert!(r.get());
    r.invalidate();
    assert!(!r.get());
    let mut e = ExitRequest::new();
    assert!(!e.get());
    request_exit(&mut e);
    assert!(e.get());
}

#[test]
fn parallel_action_hand_over() {
    let mut a: ParallelAction<u32, String> = ParallelAction::new();
    assert!(a.is_ready());
    assert_eq!(a.take_input(), None);
    a.give_input(3);
    assert!(!a.is_ready());
    assert_eq!(a.take_input(), Some(3));
    a.finish("three".to_string());
    assert_eq!(a.output(), Some(&"three".to_string()));
    assert_eq!(a.try_get_output(), Some("three".to_string()));
    assert_eq!(a.try_get_output(), None);
    assert!(a.is_ready());
}

#[test]
fn parallel_action_refuses_input_while_busy() {
    let mut a: ParallelAction<u32, u32> = ParallelAction::new();
    assert_eq!(a.give_input(1), None);
    assert_eq!(a.take_input(), Some(1));
    assert_eq!(a.give_input(2), Some(2));
    a.finish(100);
    assert_eq!(a.try_get_output(), Some(100));
    assert_eq!(a.try_get_output(), None);
}

#[test]
fn parallel_action_replaces_waiting_input_and_output() {
    let mut a: ParallelAction<u32, u32> = ParallelAction::new();
    assert_eq!(a.give_input(1), None);
    assert_eq!(a.give_input(2), None);
    assert_eq!(a.take_input(), Some(2));
    a.finish(200);
    assert_eq!(a.give_input(3), None);
    assert_eq!(a.try_get_output(), None);
    assert_eq!(a.take_input(), Some(3));
}

#[test]
fn command_line_arguments() {
    let a = Args::from_parsed(Some("x.png".to_string()), true, Some(3));
    assert_eq!(a.file_path.as_deref(), Some("x.png"));
    assert_eq!(a.displayed_folders, Some(u32::MAX));
    let b = Args::from_parsed(None, false, Some(3));
    assert_eq!(b.displayed_folders, Some(3));
    assert_eq!(Args::from_parsed(None, false, None).displayed_folders, None);
    assert_eq!(
        configuration_help("/c/cfg.toml", "/k/cache.toml"),
        "CONFIGURATION:\n    config file: /c/cfg.toml\n    cache file:  /k/cache.toml"
    );
}

#[test]
fn control_flow_from_wishes() {
    assert_eq!(NextUpdate::Soonest.into_control_flow(), ControlFlow::Poll);
    assert_eq!(NextUpdate::Latest.into_control_flow(), ControlFlow::Wait);
    assert_eq!(NextUpdate::WaitUntil(7).into_control_flow(), ControlFlow::WaitUntil(7));
    assert_eq!(set_control_flow(ControlFlow::WaitUntil(1_000 + MIN_WAIT_NANOS), 1_000), ControlFlow::WaitUntil(1_000 + MIN_WAIT_NANOS));
    assert_eq!(set_control_flow(ControlFlow::WaitUntil(1_000 + MIN_WAIT_NANOS - 1), 1_000), ControlFlow::Poll);
    assert_eq!(set_control_flow(ControlFlow::WaitUntil(5), 1_000), ControlFlow::Poll);
    assert_eq!(set_control_flow(ControlFlow::Wait, 1_000), ControlFlow::Wait);
}

#[test]
fn control_flow_aggregation_never_waits_longer() {
    let now = 0;
    let far = ControlFlow::WaitUntil(10_000_000);
    let near = ControlFlow::WaitUntil(1_000_000);
    assert_eq!(aggregate_control_flow(ControlFlow::Wait, far, now), (far, true));
    assert_eq!(aggregate_control_flow(far, near, now), (near, true));
    assert_eq!(aggregate_control_flow(near, far, now), (near, false));
    assert_eq!(aggregate_control_flow(near, ControlFlow::Wait, now), (near, false));
    assert_eq!(aggregate_control_flow(ControlFlow::Poll, near, now), (ControlFlow::Poll, false));
    assert_eq!(aggregate_control_flow(far, ControlFlow::Poll, now), (ControlFlow::Poll, true));
    assert_eq!(aggregate_control_flow(ControlFlow::Wait, ControlFlow::WaitUntil(10), now), (ControlFlow::Poll, true));
}

#[test]
fn update_check_by_the_system_clock() {
    let mut c = CacheUpdateSection::default();
    assert!(c.update_check_needed());
    c.set_update_check_time();
    assert!(c.last_checked > 1_600_000_000);
    assert!(!c.update_check_needed());
}
