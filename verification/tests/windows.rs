use aerospace_helper::icons::IconMap;
use aerospace_helper::windows::{
    arranged, make_groups, read_window, read_windows, IconGroup, WindowInfo, UNPLACED_INDEX,
};

fn icons() -> IconMap {
    let mut map = IconMap::new();
    for (app, icon) in [("Code", ":code:"), ("Chrome", ":chrome:"), ("Discord", ":discord:")] {
        map.insert(app.to_string(), icon.to_string());
    }
    map
}

fn apps(windows: &[WindowInfo]) -> Vec<&str> {
    windows.iter().map(|w| w.app_name.as_str()).collect()
}

fn groups_for(list: &str, focused_app: &str) -> Vec<IconGroup> {
    let windows = arranged(&read_windows(list, &Vec::new()), "1");
    make_groups(&windows, focused_app, &icons())
}

#[test]
fn a_line_of_six_fields_is_a_window() {
    let window = read_window(" 1 | Code |com.code| v_accordion |612 | 3 ", &Vec::new()).unwrap();
    assert_eq!(window.workspace, "1");
    assert_eq!(window.app_name, "Code");
    assert_eq!(window.layout, "v_accordion");
    assert_eq!(window.container_id, "612");
    assert_eq!(window.tree_index, 3);
}

#[test]
fn other_lines_are_passed_over() {
    let hidden = vec!["com.code".to_string()];
    assert!(read_window("1|Code|com.code|h_tiles|612", &Vec::new()).is_none());
    assert!(read_window("1|Code|com.code|h_tiles|612|0|x", &Vec::new()).is_none());
    assert!(read_window("", &Vec::new()).is_none());
    assert!(read_window("1| |com.code|h_tiles|612|0", &Vec::new()).is_none());
    assert!(read_window("1|Code| com.code |h_tiles|612|0", &hidden).is_none());
    assert!(read_window("1|Code|com.code2|h_tiles|612|0", &hidden).is_some());
}

#[test]
fn a_place_that_is_no_number_counts_as_999() {
    let index = |field: &str| {
        let line = format!("1|Code|com.code|h_tiles|612|{}", field);
        read_window(&line, &Vec::new()).unwrap().tree_index
    };
    assert_eq!(UNPLACED_INDEX, 999);
    assert_eq!(index("x"), 999);
    assert_eq!(index(""), 999);
    assert_eq!(index("2147483648"), 999);
    assert_eq!(index("-1"), -1);
    assert_eq!(index("+2"), 2);
}

#[test]
fn lines_without_a_window_make_no_difference() {
    let hidden = vec!["com.hidden".to_string()];
    let with = "1|A|a|h_tiles|1|0\nnonsense\n1|B|com.hidden|h_tiles|1|1\n\n1|C|c|h_tiles|1|2\n";
    let without = "1|A|a|h_tiles|1|0\n1|C|c|h_tiles|1|2";
    assert_eq!(apps(&read_windows(with, &hidden)), vec!["A", "C"]);
    assert_eq!(apps(&read_windows(without, &hidden)), vec!["A", "C"]);
}

#[test]
fn windows_come_in_the_order_of_the_tree() {
    let list = "1|A|a|h_tiles|1|2\n2|X|x|h_tiles|1|0\n1|B|b|h_tiles|1|0\n1|C|c|h_tiles|1|2\n\
                1|D|d|floating|1|-1\n1|E|e|h_tiles|1|?\n1|F|f|h_tiles|1|2";
    let windows = read_windows(list, &Vec::new());
    assert_eq!(apps(&arranged(&windows, "1")), vec!["D", "B", "A", "C", "F", "E"]);
    assert_eq!(apps(&arranged(&windows, "2")), vec!["X"]);
    assert_eq!(apps(&arranged(&windows, "3")), Vec::<&str>::new());
}

#[test]
fn each_accordion_is_one_group() {
    let groups = groups_for(
        "1|Chrome|c|v_accordion|612490|2\n1|Code|a|v_accordion|612489|0\n\
         1|Discord|e|h_tiles|612488|4\n1|Vivaldi|d|v_accordion|612490|3\n\
         1|cmux|b|v_accordion|612489|1\n1|System Settings|f|floating|612491|-1",
        "cmux",
    );
    assert_eq!(groups.len(), 4);
    assert_eq!(groups[0].icons, vec![":default:"]);
    assert!(groups[0].is_floating && !groups[0].is_accordion && !groups[0].has_focused);
    assert_eq!(groups[1].icons, vec![":code:", ":default:"]);
    assert!(groups[1].is_accordion && groups[1].has_focused && !groups[1].is_floating);
    assert_eq!(groups[2].icons, vec![":chrome:", ":default:"]);
    assert!(groups[2].is_accordion && !groups[2].has_focused);
    assert_eq!(groups[3].icons, vec![":discord:"]);
    assert!(!groups[3].is_accordion && !groups[3].is_floating && !groups[3].has_focused);
}

#[test]
fn each_window_is_shown_once() {
    let groups = groups_for(
        "1|Code|a|v_accordion|7|0\n1|Code|a|v_accordion|7|1\n1|Code|a|h_tiles|8|2\n\
         1|Code|a|h_tiles|8|3\n1|Chrome|c|h_accordion|9|4",
        "",
    );
    let shown: usize = groups.iter().map(|g| g.icons.len()).sum();
    assert_eq!(groups.len(), 4);
    assert_eq!(shown, 5);
}

#[test]
fn items_come_in_the_order_of_their_first_windows() {
    let groups = groups_for(
        "1|D|d|h_accordion|7|3\n1|C|c|h_tiles|1|2\n1|B|b|h_accordion|7|1\n1|A|a|h_tiles|1|0\n1|E|e|v_accordion|8|4",
        "",
    );
    let shown: Vec<usize> = groups.iter().map(|group| group.icons.len()).collect();
    assert_eq!(shown, vec![1, 2, 1, 1]);
    let pills: Vec<bool> = groups.iter().map(|group| group.is_accordion).collect();
    assert_eq!(pills, vec![false, true, false, true]);
}

#[test]
fn there_is_an_item_for_each_window_alone_and_each_accordion() {
    for (list, count) in [
        ("", 0),
        ("1|A|a|h_tiles|1|0\n1|B|b|h_tiles|1|1", 2),
        ("1|A|a|h_accordion|1|0\n1|B|b|h_accordion|1|1", 1),
        ("1|A|a|h_accordion|1|0\n1|B|b|v_accordion|2|1\n1|C|c|floating||2\n1|D|d|h_accordion|1|3", 3),
    ] {
        assert_eq!(groups_for(list, "").len(), count, "{:?}", list);
    }
}

#[test]
fn an_accordion_shows_all_in_its_container() {
    let groups = groups_for("1|Code|a|h_tiles|7|0\n1|Chrome|c|v_accordion|7|1", "Code");
    assert_eq!(groups.len(), 2);
    assert_eq!(groups[0].icons, vec![":code:"]);
    assert!(groups[0].has_focused);
    assert_eq!(groups[1].icons, vec![":code:", ":chrome:"]);
    assert!(groups[1].has_focused);
}

#[test]
fn only_floating_windows_are_floating() {
    let groups = groups_for("1|A|a|floating|1|0\n1|B|b|floating2|1|1\n1|C|c|macos_fullscreen|1|2", "");
    assert_eq!(groups.iter().map(|g| g.is_floating).collect::<Vec<_>>(), vec![true, false, false]);
}
