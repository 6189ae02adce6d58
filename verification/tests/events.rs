use aerospace_helper::events::{
    event_text, focus_query, focused_workspace, get_hidden_bundle_ids, is_icon_map,
    is_layout_binding, nudge_message, nudge_text, reload_due, route_event, subscribe_args,
    subscribe_loop, RunningApp, StreamAction, StreamEvent, SubscribeEvent, RELOAD_NANOS,
};
use aerospace_helper::icons::IconMap;
use aerospace_helper::paths::icon_map_path;
use aerospace_helper::state::HelperState;
use aerospace_helper::text::lines;

fn fresh() -> HelperState {
    HelperState::new(IconMap::new(), true)
}

fn event(kind: &str, workspace: Option<&str>, binding: Option<&str>) -> SubscribeEvent {
    SubscribeEvent {
        event: kind.to_string(),
        workspace: workspace.map(String::from),
        binding: binding.map(String::from),
    }
}

#[test]
fn a_workspace_change_is_shown_at_once_every_time() {
    let mut state = fresh();
    for now in [0, 0, 1, 2] {
        let message = route_event(event("focused-workspace-changed", Some("3"), None), &mut state, now);
        assert_eq!(message.as_deref(), Some("3"));
    }
    let message = route_event(event("focus-changed", None, None), &mut state, 3);
    assert_eq!(message.as_deref(), Some("__focus__"));
}

#[test]
fn changes_of_focus_share_one_debounce() {
    for kind in ["focus-changed", "focused-monitor-changed", "window-detected"] {
        let mut state = fresh();
        let first = route_event(event(kind, Some("3"), None), &mut state, 0);
        assert_eq!(first.as_deref(), Some("__focus__"), "{}", kind);
        for again in ["focus-changed", "focused-monitor-changed", "window-detected"] {
            assert_eq!(route_event(event(again, None, None), &mut state, 149_999_999), None);
        }
        let later = route_event(event("window-detected", None, None), &mut state, 150_000_000);
        assert_eq!(later.as_deref(), Some("__focus__"));
    }
}

#[test]
fn redraws_of_a_series_of_events_are_apart() {
    let mut state = fresh();
    let kinds = ["focus-changed", "window-detected", "focused-workspace-changed", "binding-triggered"];
    let mut last: Option<u64> = None;
    let mut count = 0;
    for step in 0..60u64 {
        let now = step * 40_000_000;
        let kind = kinds[(step % 4) as usize];
        let named = if step % 8 == 2 { Some("3") } else { None };
        match route_event(event(kind, named, Some("alt-o")), &mut state, now) {
            Some(message) if message == "__focus__" => {
                assert!(last.is_none() || now - last.unwrap() >= 150_000_000);
                last = Some(now);
                count += 1;
            }
            Some(message) => assert_eq!(message, "3"),
            None => {}
        }
    }
    assert!(count > 10);
}

#[test]
fn a_workspace_change_without_a_name_is_a_change_of_focus() {
    let mut state = fresh();
    let first = route_event(event("focused-workspace-changed", None, None), &mut state, 0);
    assert_eq!(first.as_deref(), Some("__focus__"));
    assert_eq!(route_event(event("focused-workspace-changed", None, None), &mut state, 1), None);
}

#[test]
fn layout_bindings_lead_to_a_redraw() {
    for key in [
        "alt-shift-h", "alt-shift-j", "alt-shift-k", "alt-shift-l", "alt-shift-comma",
        "alt-shift-period", "alt-shift-u", "alt-shift-i", "alt-o", "alt-r",
    ] {
        assert!(is_layout_binding(key));
        let message = route_event(event("binding-triggered", None, Some(key)), &mut fresh(), 0);
        assert_eq!(message.as_deref(), Some("__focus__"), "{}", key);
    }
}

#[test]
fn other_bindings_and_events_lead_to_nothing() {
    let mut state = fresh();
    for ignored in [
        event("binding-triggered", None, Some("alt-h")),
        event("binding-triggered", None, Some("alt-shift-hh")),
        event("binding-triggered", Some("1"), None),
        event("mode-changed", Some("1"), Some("alt-r")),
        event("", None, None),
    ] {
        assert_eq!(route_event(ignored, &mut state, 0), None);
    }
    let message = route_event(event("focus-changed", None, None), &mut state, 0);
    assert_eq!(message.as_deref(), Some("__focus__"));
}

#[test]
fn the_subscription_names_its_events() {
    assert_eq!(
        subscribe_args(),
        vec![
            "subscribe",
            "focused-workspace-changed",
            "focus-changed",
            "focused-monitor-changed",
            "binding-triggered",
            "window-detected",
        ]
    );
}

#[test]
fn blank_lines_hold_no_event() {
    assert_eq!(event_text(" {\"_event\":\"x\"}\r"), Some("{\"_event\":\"x\"}"));
    assert_eq!(event_text(" \t"), None);
    assert_eq!(event_text(""), None);
}

#[test]
fn the_stream_is_opened_again_until_shutdown() {
    assert!(matches!(subscribe_loop(StreamEvent::Ready, false), StreamAction::Connect));
    assert!(matches!(subscribe_loop(StreamEvent::Ready, true), StreamAction::Stop));
    assert!(matches!(subscribe_loop(StreamEvent::Ended, false), StreamAction::Wait(1000)));
    assert!(matches!(subscribe_loop(StreamEvent::Ended, true), StreamAction::Stop));
    for shutdown in [false, true] {
        assert!(matches!(
            subscribe_loop(StreamEvent::NotStarted, shutdown),
            StreamAction::Wait(2000)
        ));
        assert!(matches!(
            subscribe_loop(StreamEvent::NoOutput, shutdown),
            StreamAction::Wait(2000)
        ));
    }
}

#[test]
fn any_line_is_a_nudge() {
    for line in ["display_change", "   ", "", "\t", "\r"] {
        assert_eq!(nudge_message(Some(line)).as_deref(), Some("__visibility__"), "{:?}", line);
    }
}

#[test]
fn a_line_that_could_not_be_read_is_no_nudge() {
    assert_eq!(nudge_message(None), None);
}

#[test]
fn a_nudge_is_sent_as_a_line() {
    assert_eq!(nudge_text(Some("display_change")).as_deref(), Some("display_change\n"));
    assert_eq!(nudge_text(Some("")), None);
    assert_eq!(nudge_text(None), None);
}

#[test]
fn a_sent_nudge_arrives() {
    for (sent, count) in [("display_change", 1), ("a\n\nb", 3), ("   ", 1), ("\r", 1), ("\n", 2)] {
        let text = nudge_text(Some(sent)).unwrap();
        let heard = lines(&text).iter().filter(|line| nudge_message(Some(line)).is_some()).count();
        assert_eq!(heard, count, "{:?}", sent);
    }
}

#[test]
fn messages_without_a_workspace_ask_for_the_focused_one() {
    for message in ["__focus__", "__visibility__", "__"] {
        assert_eq!(focus_query(message), Some(vec!["list-workspaces".to_string(), "--focused".to_string()]));
        assert_eq!(focused_workspace(message.to_string(), Some("4".to_string())), "4");
        assert_eq!(focused_workspace(message.to_string(), None), "");
    }
    for message in ["4", "", "_x", "a__"] {
        assert_eq!(focus_query(message), None);
        assert_eq!(focused_workspace(message.to_string(), Some("7".to_string())), message);
    }
}

#[test]
fn icons_are_reloaded_half_a_second_after_the_last_time_at_the_earliest() {
    assert_eq!(RELOAD_NANOS, 500_000_000);
    assert!(!reload_due(true, 499_999_999, 0));
    assert!(reload_due(true, 500_000_000, 0));
    assert!(!reload_due(false, 500_000_000, 0));
    assert!(!reload_due(true, 0, 1));
}

#[test]
fn the_watched_file_is_told_from_others() {
    assert!(is_icon_map(Some(&icon_map_path("/Users/kim"))));
    assert!(is_icon_map(Some("/x/icon_map.toml~")));
    assert!(!is_icon_map(Some("/x/icon_map.json")));
    assert!(!is_icon_map(None));
}

#[test]
fn hidden_applications_give_their_bundles() {
    let app = |hidden: bool, id: Option<&str>| RunningApp { hidden, bundle_id: id.map(String::from) };
    let apps = vec![
        app(true, Some("com.a")),
        app(false, Some("com.b")),
        app(true, None),
        app(true, Some("com.c")),
        app(false, None),
    ];
    assert_eq!(get_hidden_bundle_ids(&apps), vec!["com.a", "com.c"]);
    assert!(get_hidden_bundle_ids(&Vec::new()).is_empty());
}
