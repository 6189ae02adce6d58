use aerospace_helper::icons::{icons_in, load_icon_map, IconMap, IconMapError, TomlEntry};

#[test]
fn an_icon_is_the_listed_one_or_a_default() {
    let mut map = IconMap::new();
    assert_eq!(map.icon_for("Code"), ":default:");
    map.insert("Code".to_string(), ":code:".to_string());
    assert_eq!(map.icon_for("Code"), ":code:");
    assert_eq!(map.icon_for("Chrome"), ":default:");
    map.insert("_default".to_string(), ":any:".to_string());
    assert_eq!(map.icon_for("Chrome"), ":any:");
    assert_eq!(map.icon_for("Code"), ":code:");
    map.insert("Code".to_string(), ":vscode:".to_string());
    assert_eq!(map.get("Code"), Some(":vscode:"));
    assert_eq!(map.get("Chrome"), None);
    assert_eq!(map.len(), 2);
}

#[test]
fn icons_are_read_from_toml() {
    let loaded = load_icon_map(Some(
        "title = 'x'\n[icons]\nCode = \":code:\"\n\"Google Chrome\" = ':google_chrome:'\n",
    ));
    assert!(loaded.problem.is_none());
    assert_eq!(loaded.icons.len(), 2);
    assert_eq!(loaded.icons.icon_for("Code"), ":code:");
    assert_eq!(loaded.icons.icon_for("Google Chrome"), ":google_chrome:");
}

#[test]
fn inline_and_dotted_tables_list_icons_too() {
    assert_eq!(load_icon_map(Some("icons = { A = 'a' }")).icons.icon_for("A"), "a");
    assert_eq!(load_icon_map(Some("icons.A = 'a'\nicons.B = 'b'")).icons.icon_for("B"), "b");
}

#[test]
fn a_document_without_icons_lists_none() {
    for text in ["", "# nothing\n", "[other]\nCode = 1\n"] {
        let loaded = load_icon_map(Some(text));
        assert!(loaded.problem.is_none(), "{:?}", text);
        assert_eq!(loaded.icons.len(), 0);
    }
}

#[test]
fn a_missing_file_gives_no_icons() {
    let loaded = load_icon_map(None);
    assert!(matches!(loaded.problem, Some(IconMapError::Unreadable)));
    assert_eq!(loaded.icons.len(), 0);
}

#[test]
fn a_broken_document_gives_no_icons() {
    for text in [
        "icons = ",
        "[icons\n",
        "[icons]\nA = 'a'\nA = 'b'\n",
        "icons = 1\nicons = 2\n",
        "a = 1e999\n",
    ] {
        let loaded = load_icon_map(Some(text));
        assert!(matches!(loaded.problem, Some(IconMapError::Syntax(_))), "{:?}", text);
        assert_eq!(loaded.icons.len(), 0);
    }
}

#[test]
fn icons_that_are_no_strings_give_no_icons() {
    for text in [
        "icons = 1\n",
        "icons = ['a']\n",
        "[[icons]]\nA = 'a'\n",
        "[icons]\nA = 'a'\nB = 2\n",
        "[icons]\nA = 1979-05-27\n",
        "[icons.A]\nb = 'c'\n",
    ] {
        let loaded = load_icon_map(Some(text));
        assert!(matches!(loaded.problem, Some(IconMapError::Shape)), "{:?}", text);
        assert_eq!(loaded.icons.len(), 0);
    }
}

#[test]
fn a_date_reads_as_a_table_of_one_entry() {
    let loaded = load_icon_map(Some("icons = 1979-05-27\n"));
    assert!(loaded.problem.is_none());
    assert_eq!(loaded.icons.len(), 1);
    assert_eq!(loaded.icons.get("$__toml_private_datetime"), Some("1979-05-27"));
}

#[test]
fn a_table_is_no_date_whatever_its_keys() {
    let text = "[icons]\n\"$__toml_private_datetime\" = 'x'\nA = 'a'\n\
                [other]\n\"$__toml_private_datetime\" = 'y'\n";
    let loaded = load_icon_map(Some(text));
    assert!(loaded.problem.is_none());
    assert_eq!(loaded.icons.len(), 2);
    assert_eq!(loaded.icons.get("$__toml_private_datetime"), Some("x"));
    assert_eq!(loaded.icons.get("A"), Some("a"));
}

#[test]
fn other_values_of_any_kind_are_passed_over() {
    let text = "a = nan\nb = inf\nc = -inf\nd = 07:32:00\ne = [1, 'x', {f = 2}]\ng = true\n\
                [icons]\nA = 'a'\n";
    let loaded = load_icon_map(Some(text));
    assert!(loaded.problem.is_none());
    assert_eq!(loaded.icons.icon_for("A"), "a");
}

#[test]
fn a_document_is_searched_for_its_icons() {
    let text = |s: &str| Some(s.to_string());
    let document = vec![
        TomlEntry { key: "other".to_string(), table: None },
        TomlEntry {
            key: "icons".to_string(),
            table: Some(vec![("A".to_string(), text("a")), ("B".to_string(), text("b"))]),
        },
    ];
    let icons = icons_in(&document).unwrap();
    assert_eq!(icons.icon_for("A"), "a");
    assert_eq!(icons.len(), 2);

    let wrong = vec![TomlEntry {
        key: "icons".to_string(),
        table: Some(vec![("A".to_string(), None)]),
    }];
    assert!(icons_in(&wrong).is_none());
    let no_table = vec![TomlEntry { key: "icons".to_string(), table: None }];
    assert!(icons_in(&no_table).is_none());
    assert_eq!(icons_in(&Vec::new()).unwrap().len(), 0);
}
