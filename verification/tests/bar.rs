use std::collections::{HashMap, HashSet};

use aerospace_helper::bar::{
    find_monitor, focused_app_query, load_floating_workspaces, monitor_count, monitor_count_query,
    monitors_query, render, update_sketchybar, windows_query, BarReplies,
};
use aerospace_helper::icons::IconMap;
use aerospace_helper::state::{BarSnapshot, HelperState, SpaceItems, MAX_CHILD_PROCS};

fn some(s: &str) -> Option<String> {
    Some(s.to_string())
}

fn nothing() -> BarReplies {
    BarReplies {
        hidden: Vec::new(),
        floating: None,
        windows: None,
        focused_app: None,
        monitor_count: None,
        monitors: None,
    }
}

fn icon_list() -> Vec<(&'static str, &'static str)> {
    vec![("Code", ":code:"), ("Chrome", ":chrome:"), ("_default", ":any:")]
}

fn state() -> HelperState {
    let mut icons = IconMap::new();
    for (app, icon) in icon_list() {
        icons.insert(app.to_string(), icon.to_string());
    }
    HelperState::new(icons, true)
}

fn space(name: &str, names: &[&str]) -> SpaceItems {
    SpaceItems { space: name.to_string(), names: names.iter().map(|s| s.to_string()).collect() }
}

fn drawn(focused: &str, earlier: Vec<SpaceItems>, replies: &BarReplies) -> (Vec<String>, Vec<SpaceItems>) {
    let icons = state().bar_snapshot().unwrap().icons;
    render(focused, &BarSnapshot { icons, items: earlier }, replies)
}

/// The same with the standard library's collections, for one workspace after another.
fn expected(focused: &str, earlier: &[SpaceItems], replies: &BarReplies) -> Vec<String> {
    let icons: HashMap<&str, &str> = icon_list().into_iter().collect();
    let icon = |app: &str| icons.get(app).or_else(|| icons.get("_default")).unwrap().to_string();
    let text = |reply: &Option<String>| reply.clone().unwrap_or_default();
    let floating: HashSet<String> = text(&replies.floating)
        .lines()
        .map(|l| l.trim().to_string())
        .filter(|l| !l.is_empty())
        .collect();
    let count: usize =
        replies.monitor_count.as_ref().and_then(|s| s.trim().parse().ok()).unwrap_or(1);
    let monitors: HashMap<String, String> = text(&replies.monitors)
        .lines()
        .map(|l| l.split('|').map(String::from).collect::<Vec<_>>())
        .filter(|p| p.len() == 2)
        .map(|p| (p[0].clone(), p[1].clone()))
        .collect();
    let mut windows: HashMap<String, Vec<(String, String, String, i32)>> = HashMap::new();
    for line in text(&replies.windows).lines() {
        let p: Vec<&str> = line.split('|').map(|f| f.trim()).collect();
        if p.len() == 6 && !p[1].is_empty() && !replies.hidden.contains(&p[2].to_string()) {
            windows.entry(p[0].to_string()).or_default().push((
                p[1].to_string(),
                p[3].to_string(),
                p[4].to_string(),
                p[5].parse().unwrap_or(999),
            ));
        }
    }
    let focused_app = text(&replies.focused_app);
    let mut args: Vec<String> = Vec::new();
    let mut items: HashMap<String, Vec<String>> = HashMap::new();
    for sid in 1..=9 {
        let name = format!("{}", sid);
        let on = if name == focused { "on" } else { "off" };
        let color = if name == focused { "0xff313244" } else { "0x00000000" };
        let (border, width) =
            if floating.contains(&name) { ("0xffcba6f7", 2) } else { ("0x00000000", 0) };
        let display = if count > 1 {
            monitors.get(&name).map(|m| format!("associated_display={}", m))
        } else {
            some("associated_display=1")
        };
        args.extend([
            "--set".to_string(),
            format!("space.{}", sid),
            "label=".to_string(),
            format!("icon.highlight={}", on),
            format!("label.highlight={}", on),
            "background.drawing=off".to_string(),
            "icon.padding_right=5".to_string(),
            "label.padding_left=0".to_string(),
            "label.padding_right=0".to_string(),
        ]);
        args.extend(display.clone());
        let mut here = windows.remove(&name).unwrap_or_default();
        here.sort_by_key(|w| w.3);
        let mut names: Vec<String> = Vec::new();
        let mut seen: HashSet<String> = HashSet::new();
        let mut after = format!("space.{}", sid);
        for w in &here {
            let accordion = w.1.contains("accordion");
            if accordion && !seen.insert(w.2.clone()) {
                continue;
            }
            let members: Vec<_> =
                if accordion { here.iter().filter(|o| o.2 == w.2).collect() } else { vec![w] };
            let has_focus = members.iter().any(|m| m.0 == focused_app);
            let label = members.iter().map(|m| icon(&m.0)).collect::<Vec<_>>().join(" ");
            let label_color = match (!accordion && w.1 == "floating", has_focus) {
                (true, true) => "0xffcba6f7",
                (true, false) => "0x99cba6f7",
                (false, true) => "0xffcdd6f4",
                (false, false) => "0xff6c7086",
            };
            let item = format!("ws{}.g{}", sid, names.len());
            args.extend([
                "--add".to_string(),
                "item".to_string(),
                item.clone(),
                "left".to_string(),
                "--set".to_string(),
                item.clone(),
                format!("label={}", label),
                format!("label.color={}", label_color),
                "label.font=sketchybar-app-font:Regular:13.0".to_string(),
                "label.y_offset=0".to_string(),
                "icon.drawing=off".to_string(),
                "label.padding_left=4".to_string(),
                "label.padding_right=4".to_string(),
            ]);
            let pill: &[&str] = if accordion {
                &[
                    "background.drawing=on",
                    "background.color=0xff45475a",
                    "background.corner_radius=8",
                    "background.border_width=0",
                    "background.height=26",
                    "background.padding_left=2",
                    "background.padding_right=2",
                ]
            } else {
                &["background.drawing=off"]
            };
            args.extend(pill.iter().map(|s| s.to_string()));
            args.extend(display.clone());
            args.extend(["--move".to_string(), item.clone(), "after".to_string(), after]);
            after = item.clone();
            names.push(item);
        }
        let bracket = format!("ws{}.bracket", sid);
        if names.is_empty() {
            args.extend([
                "--set".to_string(),
                format!("space.{}", sid),
                "background.drawing=on".to_string(),
                format!("background.color={}", color),
                format!("background.border_color={}", border),
                format!("background.border_width={}", width),
                "--remove".to_string(),
                bracket.clone(),
            ]);
        } else {
            args.extend(["--add".to_string(), "bracket".to_string(), bracket.clone()]);
            args.push(format!("space.{}", sid));
            args.extend(names.iter().cloned());
            args.extend([
                "--set".to_string(),
                bracket.clone(),
                format!("background.color={}", color),
                format!("background.border_color={}", border),
                format!("background.border_width={}", width),
                "background.corner_radius=8".to_string(),
                "background.height=26".to_string(),
                "background.drawing=on".to_string(),
            ]);
        }
        names.push(bracket);
        items.insert(name, names);
    }
    for old in earlier {
        let current = items.get(&old.space).cloned().unwrap_or_default();
        for name in &old.names {
            if !current.contains(name) {
                args.extend(["--remove".to_string(), name.clone()]);
            }
        }
    }
    args
}

const WINDOWS: &str = "1|Chrome|com.chrome|v_accordion|612490|2\n1|Code|com.code|v_accordion|612489|0\n\
1|Discord|com.discord|h_tiles|612488|4\n1|Vivaldi|com.vivaldi|v_accordion|612490|3\n\
1|cmux|com.cmux|v_accordion|612489|1\n1|System Settings|com.settings|floating|612491|-1\n\
2|Code|com.code|floating|1|-1\n9|Notes|com.notes|h_tiles|5|x\nscratch|Code|com.code|h_tiles|2|0\n\
broken line\n3||com.none|h_tiles|1|0\n4|Hidden|com.hidden|h_tiles|1|0\n";

fn full() -> BarReplies {
    BarReplies {
        hidden: vec!["com.hidden".to_string()],
        floating: some(" 2 \n\n7\r\n"),
        windows: some(WINDOWS),
        focused_app: some("Code"),
        monitor_count: some("2\n"),
        monitors: some("1|1\n2|2\n3|1|x\n9|2\n2|3\n"),
    }
}

#[test]
fn an_update_says_all_there_is_to_say() {
    let mut single = full();
    single.monitor_count = some("1");
    let mut unknown = full();
    unknown.monitors = None;
    for replies in [full(), single, unknown, nothing()] {
        for focused in ["1", "2", "9", "10", ""] {
            let earlier = vec![
                space("1", &["ws1.g0", "ws1.g7", "ws1.bracket"]),
                space("5", &["ws5.g0", "ws5.bracket"]),
                space("12", &["ws12.g0"]),
            ];
            let said = expected(focused, &earlier, &replies);
            assert_eq!(drawn(focused, earlier, &replies).0, said);
        }
    }
}

#[test]
fn an_empty_workspace_has_its_own_background() {
    let (args, items) = drawn("1", Vec::new(), &nothing());
    assert_eq!(
        args[..18],
        [
            "--set",
            "space.1",
            "label=",
            "icon.highlight=on",
            "label.highlight=on",
            "background.drawing=off",
            "icon.padding_right=5",
            "label.padding_left=0",
            "label.padding_right=0",
            "associated_display=1",
            "--set",
            "space.1",
            "background.drawing=on",
            "background.color=0xff313244",
            "background.border_color=0x00000000",
            "background.border_width=0",
            "--remove",
            "ws1.bracket",
        ]
    );
    assert_eq!(args.len(), 9 * 18);
    assert_eq!(items.len(), 9);
    assert_eq!(items[8].space, "9");
    assert_eq!(items[8].names, vec!["ws9.bracket"]);
}

#[test]
fn an_accordion_is_drawn_as_a_pill() {
    let mut replies = nothing();
    replies.windows = some("2|Code|a|v_accordion|7|0\n2|Chrome|b|v_accordion|7|1");
    replies.focused_app = some("Chrome");
    let (args, items) = drawn("1", Vec::new(), &replies);
    let at = args.iter().position(|a| a == "--add").unwrap();
    assert_eq!(
        args[at..at + 25],
        [
            "--add",
            "item",
            "ws2.g0",
            "left",
            "--set",
            "ws2.g0",
            "label=:code: :chrome:",
            "label.color=0xffcdd6f4",
            "label.font=sketchybar-app-font:Regular:13.0",
            "label.y_offset=0",
            "icon.drawing=off",
            "label.padding_left=4",
            "label.padding_right=4",
            "background.drawing=on",
            "background.color=0xff45475a",
            "background.corner_radius=8",
            "background.border_width=0",
            "background.height=26",
            "background.padding_left=2",
            "background.padding_right=2",
            "associated_display=1",
            "--move",
            "ws2.g0",
            "after",
            "space.2",
        ]
    );
    assert_eq!(items[1].names, vec!["ws2.g0", "ws2.bracket"]);
}

#[test]
fn a_floating_workspace_has_a_mauve_border() {
    let mut replies = nothing();
    replies.floating = some("3\n");
    let (args, _) = drawn("1", Vec::new(), &replies);
    assert!(args[2 * 18..3 * 18].contains(&"background.border_color=0xffcba6f7".to_string()));
    assert!(args[2 * 18..3 * 18].contains(&"background.border_width=2".to_string()));
    assert_eq!(args.iter().filter(|a| *a == "background.border_width=2").count(), 1);
}

#[test]
fn at_most_one_workspace_has_the_focus() {
    for (focused, count) in [("1", 1), ("9", 1), ("0", 0), ("10", 0), ("", 0)] {
        let (args, _) = drawn(focused, Vec::new(), &full());
        assert_eq!(args.iter().filter(|a| *a == "icon.highlight=on").count(), count);
    }
}

#[test]
fn item_names_are_distinct() {
    let (_, items) = drawn("1", Vec::new(), &full());
    let mut all = HashSet::new();
    for one in &items {
        for name in &one.names {
            assert!(all.insert(name.clone()), "{}", name);
        }
    }
    assert_eq!(items[0].names, vec!["ws1.g0", "ws1.g1", "ws1.g2", "ws1.g3", "ws1.bracket"]);
}

#[test]
fn a_repeated_update_removes_nothing() {
    let (first, items) = drawn("1", Vec::new(), &full());
    let (second, _) = drawn("1", items, &full());
    assert_eq!(first, second);
}

#[test]
fn surplus_items_go() {
    let (_, items) = drawn("1", Vec::new(), &full());
    let mut fewer = full();
    fewer.windows = some("1|Code|com.code|h_tiles|1|0\n1|Chrome|com.chrome|h_tiles|1|1");
    let (plain, _) = drawn("1", Vec::new(), &fewer);
    let (args, _) = drawn("1", items, &fewer);
    assert_eq!(
        args[plain.len()..],
        [
            "--remove", "ws1.g2", "--remove", "ws1.g3", "--remove", "ws2.g0", "--remove", "ws9.g0",
        ]
    );
}

/// What the update removes, and the items and brackets that it adds.
fn changes(args: &[String]) -> (Vec<&str>, Vec<&str>) {
    let after = |word: &str, by: usize| {
        (0..args.len()).filter(|p| args[*p] == word).map(|p| args[p + by].as_str()).collect()
    };
    (after("--remove", 1), after("--add", 2))
}

#[test]
fn only_stale_items_and_brackets_of_empty_workspaces_are_removed() {
    let mut fewer = full();
    fewer.windows = some("1|Code|com.code|h_tiles|1|0\n1|Chrome|com.chrome|h_tiles|1|1");
    let (_, items) = drawn("1", Vec::new(), &full());
    let (args, _) = drawn("1", items, &fewer);
    let (removed, added) = changes(&args);
    assert_eq!(added, vec!["ws1.g0", "ws1.g1", "ws1.bracket"]);
    assert_eq!(
        removed,
        vec![
            "ws2.bracket", "ws3.bracket", "ws4.bracket", "ws5.bracket", "ws6.bracket",
            "ws7.bracket", "ws8.bracket", "ws9.bracket", "ws1.g2", "ws1.g3", "ws2.g0", "ws9.g0",
        ]
    );
    let (args, _) = drawn("1", Vec::new(), &full());
    let (removed, added) = changes(&args);
    assert!(added.iter().all(|name| !removed.contains(name)));
}

#[test]
fn an_item_called_like_the_word_that_removes_is_removed_as_any_other() {
    let earlier = vec![space("1", &["--remove", "x"])];
    let (plain, _) = drawn("1", Vec::new(), &nothing());
    let (args, _) = drawn("1", earlier, &nothing());
    assert_eq!(args[plain.len()..], ["--remove", "--remove", "--remove", "x"]);
}

#[test]
fn no_workspace_has_items_twice() {
    let (_, items) = drawn("1", Vec::new(), &full());
    let spaces: HashSet<&str> = items.iter().map(|one| one.space.as_str()).collect();
    assert_eq!(spaces.len(), items.len());
}

#[test]
fn an_update_is_remembered() {
    let mut state = state();
    let snapshot = state.bar_snapshot();
    let started = update_sketchybar("1", snapshot, &full(), &mut state).unwrap();
    assert_eq!(started.program, "/opt/homebrew/bin/sketchybar");
    assert_eq!(started.args, expected("1", &[], &full()));
    let items = state.bar_snapshot().unwrap().items;
    assert_eq!(items.len(), 9);
    assert_eq!(items[1].names, vec!["ws2.g0", "ws2.bracket"]);
}

#[test]
fn an_update_at_the_limit_is_remembered_and_not_started() {
    let mut state = state();
    for _ in 0..MAX_CHILD_PROCS {
        state.child_spawned(true);
    }
    let snapshot = state.bar_snapshot();
    assert!(update_sketchybar("1", snapshot, &full(), &mut state).is_none());
    assert_eq!(state.bar_snapshot().unwrap().items.len(), 9);
    assert_eq!(state.child_count(), MAX_CHILD_PROCS);
}

#[test]
fn without_a_bar_nothing_is_done() {
    let mut state = HelperState::new(IconMap::new(), false);
    let snapshot = state.bar_snapshot();
    assert!(snapshot.is_none());
    assert!(update_sketchybar("1", snapshot, &full(), &mut state).is_none());
}

#[test]
fn monitors_are_counted() {
    assert_eq!(monitor_count(&some("2")), 2);
    assert_eq!(monitor_count(&some(" 3\n")), 3);
    assert_eq!(monitor_count(&some("0")), 0);
    assert_eq!(monitor_count(&some("two")), 1);
    assert_eq!(monitor_count(&some("-2")), 1);
    assert_eq!(monitor_count(&None), 1);
}

#[test]
fn the_last_line_for_a_workspace_gives_its_monitor() {
    let list = "1|1\n2|2\n2|3\n3|1|x\n4\n 5|1";
    assert_eq!(find_monitor(list, "1").as_deref(), Some("1"));
    assert_eq!(find_monitor(list, "2").as_deref(), Some("3"));
    assert_eq!(find_monitor(list, "3"), None);
    assert_eq!(find_monitor(list, "4"), None);
    assert_eq!(find_monitor(list, "5"), None);
    assert_eq!(find_monitor("", "1"), None);
}

#[test]
fn floating_workspaces_are_named_one_on_a_line() {
    let spaces = load_floating_workspaces(Some("1\n 3 \n\n  \nmail\r\n"));
    assert!(spaces.contains("1") && spaces.contains("3") && spaces.contains("mail"));
    assert!(!spaces.contains("") && !spaces.contains("2") && !spaces.contains(" 3 "));
    assert_eq!(spaces.len(), 3);
    assert_eq!(load_floating_workspaces(None).len(), 0);
}

#[test]
fn queries_ask_for_what_is_read() {
    assert_eq!(
        windows_query(),
        vec![
            "list-windows",
            "--all",
            "--format",
            "%{workspace}|%{app-name}|%{app-bundle-id}|%{window-layout}|%{window-parent-container-id}|%{window-tree-index}",
        ]
    );
    assert_eq!(focused_app_query(), vec!["list-windows", "--focused", "--format", "%{app-name}"]);
    assert_eq!(monitor_count_query(), vec!["list-monitors", "--count"]);
}

#[test]
fn workspaces_are_asked_for_where_there_are_monitors_to_choose_from() {
    assert_eq!(monitors_query(&some("1")), None);
    assert_eq!(monitors_query(&None), None);
    assert_eq!(
        monitors_query(&some("2")).unwrap(),
        vec!["list-workspaces", "--monitor", "all", "--format", "%{workspace}|%{monitor-id}"]
    );
}
