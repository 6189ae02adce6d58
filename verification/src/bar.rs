//! The status bar: one item for each workspace, and after it the items for its windows.

use vstd::hash_set::StringHashSet;
use vstd::prelude::*;

use crate::bar_laws::law_spaces_differ;
use crate::command::{spawn_and_reap, Command, Invocation};
use crate::icons::IconMap;
use crate::number::{decimal, natural, read_usize, write_decimal};
use crate::state::{
    spaces_view, BarSnapshot, HelperState, MAX_CHILD_PROCS, Space, SpaceItems, State,
};
use crate::text::{
    add_all, chain, join, joined, lines, lines_of, list_of, listed, opt_text, pieces, same, slices,
    split, text_or_empty, texts, trim, trimmed,
};
use crate::windows::{
    arranged, groups_of, groups_view, in_tree_order, make_groups, on_workspace, read_windows,
    windows_in, windows_view, Group, IconGroup, WindowInfo,
};

verus! {

/// How many workspaces the bar shows: those numbered from 1.
pub const SPACES: u64 = 9;

/// Where the program is that draws the bar.
pub const SKETCHYBAR: &'static str = "/opt/homebrew/bin/sketchybar";

/// The colour of floating windows, and of workspaces in floating mode.
pub const MAUVE: &'static str = "0xffcba6f7";

/// The colour of floating windows without focus.
pub const MAUVE_DIM: &'static str = "0x99cba6f7";

/// What an update of the bar goes by. A reply is missing where the command failed.
pub struct BarReplies {
    /// The bundles of hidden applications.
    pub hidden: Vec<String>,
    /// The contents of the file that names the workspaces in floating mode.
    pub floating: Option<String>,
    /// The list of all windows.
    pub windows: Option<String>,
    /// The application of the focused window.
    pub focused_app: Option<String>,
    /// How many monitors there are.
    pub monitor_count: Option<String>,
    /// On which monitor each workspace is.
    pub monitors: Option<String>,
}

/// What the replies say.
#[verifier::ext_equal]
pub struct Replies {
    pub hidden: Seq<Seq<char>>,
    pub floating: Option<Seq<char>>,
    pub windows: Seq<char>,
    pub focused_app: Seq<char>,
    pub monitor_count: Option<Seq<char>>,
    pub monitors: Seq<char>,
}

impl View for BarReplies {
    type V = Replies;

    open spec fn view(&self) -> Replies {
        Replies {
            hidden: texts(self.hidden@),
            floating: opt_text(self.floating),
            windows: text_or_empty(self.windows),
            focused_app: text_or_empty(self.focused_app),
            monitor_count: opt_text(self.monitor_count),
            monitors: text_or_empty(self.monitors),
        }
    }
}

// ---- What to ask ----

/// What to ask for the list of all windows.
pub fn windows_query() -> (args: Vec<String>)
    ensures
        texts(args@) == seq![
            "list-windows"@,
            "--all"@,
            "--format"@,
            "%{workspace}|%{app-name}|%{app-bundle-id}|%{window-layout}|%{window-parent-container-id}|%{window-tree-index}"@,
        ],
{
    let args = list_of(
        &[
            "list-windows",
            "--all",
            "--format",
            "%{workspace}|%{app-name}|%{app-bundle-id}|%{window-layout}|%{window-parent-container-id}|%{window-tree-index}",
        ],
    );
    assert(texts(args@) == seq![
        "list-windows"@,
        "--all"@,
        "--format"@,
        "%{workspace}|%{app-name}|%{app-bundle-id}|%{window-layout}|%{window-parent-container-id}|%{window-tree-index}"@,
    ]);
    args
}

/// What to ask for the application of the focused window.
pub fn focused_app_query() -> (args: Vec<String>)
    ensures
        texts(args@) == seq![
            "list-windows"@,
            "--focused"@,
            "--format"@,
            "%{app-name}"@,
        ],
{
    let args = list_of(&["list-windows", "--focused", "--format", "%{app-name}"]);
    assert(texts(args@) == seq![
        "list-windows"@,
        "--focused"@,
        "--format"@,
        "%{app-name}"@,
    ]);
    args
}

/// What to ask for the number of monitors.
pub fn monitor_count_query() -> (args: Vec<String>)
    ensures
        texts(args@) == seq!["list-monitors"@, "--count"@],
{
    let args = list_of(&["list-monitors", "--count"]);
    assert(texts(args@) == seq!["list-monitors"@, "--count"@]);
    args
}

/// How many monitors there are: one, unless the reply is a number.
pub open spec fn monitors_counted(reply: Option<Seq<char>>) -> nat {
    match reply {
        Some(s) => match natural(trimmed(s)) {
            Some(v) if v <= usize::MAX => v,
            _ => 1,
        },
        None => 1,
    }
}

/// How many monitors there are.
pub fn monitor_count(reply: &Option<String>) -> (count: usize)
    ensures
        count == monitors_counted(opt_text(*reply)),
{
    match reply {
        Some(s) => match read_usize(trim(s.as_str())) {
            Some(count) => count,
            None => 1,
        },
        None => 1,
    }
}

/// What to ask for the monitor of each workspace, if there is more than one.
pub fn monitors_query(count_reply: &Option<String>) -> (args: Option<Vec<String>>)
    ensures
        args is Some <==> monitors_counted(opt_text(*count_reply)) > 1,
        args matches Some(args) ==> texts(args@) == seq![
            "list-workspaces"@,
            "--monitor"@,
            "all"@,
            "--format"@,
            "%{workspace}|%{monitor-id}"@,
        ],
{
    if monitor_count(count_reply) > 1 {
        let args = list_of(
            &["list-workspaces", "--monitor", "all", "--format", "%{workspace}|%{monitor-id}"],
        );
        assert(texts(args@) == seq![
            "list-workspaces"@,
            "--monitor"@,
            "all"@,
            "--format"@,
            "%{workspace}|%{monitor-id}"@,
        ]);
        Some(args)
    } else {
        None
    }
}

// ---- What the replies mean ----

/// Whether the file names `space` as a workspace in floating mode: on a line of its own, with or
/// without white space around it.
pub open spec fn names_floating(file: Option<Seq<char>>, space: Seq<char>) -> bool {
    &&& file is Some
    &&& space.len() > 0
    &&& exists|i: int|
        0 <= i < lines_of(file->0).len() && trimmed(#[trigger] lines_of(file->0)[i]) == space
}

/// The workspaces in floating mode, from the contents of the file that names them, if there is
/// one.
pub fn load_floating_workspaces(file: Option<&str>) -> (spaces: StringHashSet)
    ensures
        forall|space: Seq<char>| #[trigger]
            spaces@.contains(space) <==> names_floating(
                match file {
                    Some(s) => Some(s@),
                    None => None,
                },
                space,
            ),
{
    let mut spaces = StringHashSet::new();
    let content = match file {
        Some(content) => content,
        None => {
            return spaces;
        },
    };
    let all = lines(content);
    let ghost every = lines_of(content@);
    let mut i: usize = 0;
    while i < all.len()
        invariant
            i <= all.len(),
            slices(all@) == every,
            forall|space: Seq<char>| #[trigger]
                spaces@.contains(space) <==> space.len() > 0 && exists|j: int|
                    0 <= j < i && trimmed(#[trigger] every[j]) == space,
        decreases all.len() - i,
    {
        assert(every[i as int] == all[i as int]@);
        let name = trim(all[i]);
        if !name.is_empty() {
            spaces.insert(name.to_owned());
        }
        i += 1;
    }
    proof {
        assert forall|space: Seq<char>| #[trigger] spaces@.contains(space) <==> names_floating(
            Some(content@),
            space,
        ) by {
            if names_floating(Some(content@), space) {
                let j = choose|j: int|
                    0 <= j < lines_of(content@).len() && trimmed(
                        #[trigger] lines_of(content@)[j],
                    ) == space;
                assert(trimmed(every[j]) == space);
            }
        }
    }
    spaces
}

/// The monitor that a line gives for `space`.
pub open spec fn monitor_on_line(line: Seq<char>, space: Seq<char>) -> Option<Seq<char>> {
    let fields = pieces(line, '|');
    if fields.len() == 2 && fields[0] == space {
        Some(fields[1])
    } else {
        None
    }
}

/// The monitor of `space`: the one that the last line with a monitor for it gives.
pub open spec fn monitor_of(list: Seq<Seq<char>>, space: Seq<char>) -> Option<Seq<char>>
    decreases list.len(),
{
    if list.len() == 0 {
        None
    } else {
        match monitor_on_line(list.last(), space) {
            Some(monitor) => Some(monitor),
            None => monitor_of(list.drop_last(), space),
        }
    }
}

/// Finds the monitor of `space`.
pub fn find_monitor(list: &str, space: &str) -> (monitor: Option<String>)
    ensures
        opt_text(monitor) == monitor_of(lines_of(list@), space@),
{
    let all = lines(list);
    let ghost every = lines_of(list@);
    let mut i: usize = all.len();
    assert(every.take(i as int) == every);
    while i > 0
        invariant
            i <= all.len(),
            slices(all@) == every,
            every == lines_of(list@),
            monitor_of(every, space@) == monitor_of(every.take(i as int), space@),
        decreases i,
    {
        i -= 1;
        assert(every[i as int] == all[i as int]@);
        assert(every.take(i + 1).drop_last() == every.take(i as int));
        assert(every.take(i + 1).last() == every[i as int]);
        let fields = split(all[i], '|');
        if fields.len() == 2 {
            assert(slices(fields@)[0] == fields[0]@);
            assert(slices(fields@)[1] == fields[1]@);
            if same(fields[0], space) {
                return Some(fields[1].to_owned());
            }
        }
    }
    None
}

/// What to say of the monitor of a workspace: the first and only one, or, where there are more,
/// the one that it is on, if that is known.
pub open spec fn display_args(
    monitor_count: nat,
    monitors: Seq<char>,
    space: Seq<char>,
) -> Seq<Seq<char>> {
    if monitor_count > 1 {
        match monitor_of(lines_of(monitors), space) {
            Some(monitor) => seq!["associated_display="@ + monitor],
            None => Seq::empty(),
        }
    } else {
        seq!["associated_display=1"@]
    }
}

/// What to say of the monitor of a workspace.
fn make_display(monitor_count: usize, monitors: &str, space: &str) -> (args: Vec<String>)
    ensures
        texts(args@) == display_args(monitor_count as nat, monitors@, space@),
{
    let mut args: Vec<String> = Vec::new();
    if monitor_count > 1 {
        if let Some(monitor) = find_monitor(monitors, space) {
            args.push(chain("associated_display=", monitor.as_str()));
        }
    } else {
        args.push("associated_display=1".to_owned());
    }
    assert(texts(args@) == display_args(monitor_count as nat, monitors@, space@));
    args
}

// ---- What the bar shows ----

/// What the bar shows of a workspace.
#[verifier::ext_equal]
pub struct Look {
    pub focused: bool,
    pub floating: bool,
    pub display: Seq<Seq<char>>,
    pub groups: Seq<Group>,
}

/// What the bar shows of a workspace.
pub struct SpaceLook {
    pub focused: bool,
    pub floating: bool,
    pub display: Vec<String>,
    pub groups: Vec<IconGroup>,
}

impl View for SpaceLook {
    type V = Look;

    open spec fn view(&self) -> Look {
        Look {
            focused: self.focused,
            floating: self.floating,
            display: texts(self.display@),
            groups: groups_view(self.groups@),
        }
    }
}

/// What the bar shows of workspace `sid`.
pub open spec fn look_of(
    sid: nat,
    focused_workspace: Seq<char>,
    icons: Map<Seq<char>, Seq<char>>,
    replies: Replies,
) -> Look {
    let space = decimal(sid);
    let windows = windows_in(lines_of(replies.windows), replies.hidden);
    Look {
        focused: space == focused_workspace,
        floating: names_floating(replies.floating, space),
        display: display_args(monitors_counted(replies.monitor_count), replies.monitors, space),
        groups: groups_of(in_tree_order(on_workspace(windows, space)), replies.focused_app, icons),
    }
}

// ---- How to say it to the bar ----

/// The item of a workspace.
pub open spec fn space_name(sid: nat) -> Seq<char> {
    "space."@ + decimal(sid)
}

/// The item of a group of windows.
pub open spec fn item_name(sid: nat, idx: nat) -> Seq<char> {
    "ws"@ + decimal(sid) + ".g"@ + decimal(idx)
}

/// The bracket around a workspace's items.
pub open spec fn bracket_name(sid: nat) -> Seq<char> {
    "ws"@ + decimal(sid) + ".bracket"@
}

/// The items of a workspace's groups.
pub open spec fn item_names(sid: nat, n: nat) -> Seq<Seq<char>> {
    Seq::new(n, |i: int| item_name(sid, i as nat))
}

/// `on` or `off`.
pub open spec fn on_off(on: bool) -> Seq<char> {
    if on {
        "on"@
    } else {
        "off"@
    }
}

/// How a workspace's own item is set: no label, the number highlighted where it has the focus,
/// and no background, which the bracket draws.
pub open spec fn head_args(sid: nat, focused: bool) -> Seq<Seq<char>> {
    seq![
        "--set"@,
        space_name(sid),
        "label="@,
        "icon.highlight="@ + on_off(focused),
        "label.highlight="@ + on_off(focused),
        "background.drawing=off"@,
        "icon.padding_right=5"@,
        "label.padding_left=0"@,
        "label.padding_right=0"@,
    ]
}

/// The colour of an item: mauve for a floating window, bright for the focused application, and
/// dim for the others.
pub open spec fn item_color(group: Group) -> Seq<char> {
    if group.is_floating {
        if group.has_focused {
            MAUVE@
        } else {
            MAUVE_DIM@
        }
    } else if group.has_focused {
        "0xffcdd6f4"@
    } else {
        "0xff6c7086"@
    }
}

/// How an item is added and labelled.
pub open spec fn label_args(name: Seq<char>, group: Group) -> Seq<Seq<char>> {
    seq![
        "--add"@,
        "item"@,
        name,
        "left"@,
        "--set"@,
        name,
        "label="@ + joined(group.icons, " "@),
        "label.color="@ + item_color(group),
        "label.font=sketchybar-app-font:Regular:13.0"@,
        "label.y_offset=0"@,
        "icon.drawing=off"@,
        "label.padding_left=4"@,
        "label.padding_right=4"@,
    ]
}

/// The background of an item: a pill for an accordion, none for a window on its own.
pub open spec fn pill_args(is_accordion: bool) -> Seq<Seq<char>> {
    if is_accordion {
        seq![
            "background.drawing=on"@,
            "background.color=0xff45475a"@,
            "background.corner_radius=8"@,
            "background.border_width=0"@,
            "background.height=26"@,
            "background.padding_left=2"@,
            "background.padding_right=2"@,
        ]
    } else {
        seq!["background.drawing=off"@]
    }
}

/// How an item is put after another.
pub open spec fn move_args(name: Seq<char>, after: Seq<char>) -> Seq<Seq<char>> {
    seq!["--move"@, name, "after"@, after]
}

/// What the item of group `idx` comes after: the item before it, the workspace's own for the
/// first.
pub open spec fn item_before(sid: nat, idx: nat) -> Seq<char> {
    if idx == 0 {
        space_name(sid)
    } else {
        item_name(sid, (idx - 1) as nat)
    }
}

/// How the item of a group is added, set and placed.
pub open spec fn group_args(sid: nat, idx: nat, group: Group, display: Seq<Seq<char>>) -> Seq<
    Seq<char>,
> {
    let name = item_name(sid, idx);
    label_args(name, group) + pill_args(group.is_accordion) + display + move_args(
        name,
        item_before(sid, idx),
    )
}

/// How the items of the first `n` groups are added, set and placed.
pub open spec fn groups_args(sid: nat, n: nat, look: Look) -> Seq<Seq<char>>
    decreases n,
{
    if n == 0 {
        Seq::empty()
    } else {
        groups_args(sid, (n - 1) as nat, look) + group_args(
            sid,
            (n - 1) as nat,
            look.groups[n - 1],
            look.display,
        )
    }
}

/// The background of a workspace.
pub open spec fn space_color(focused: bool) -> Seq<char> {
    if focused {
        "0xff313244"@
    } else {
        "0x00000000"@
    }
}

/// The colour and width of the border of a workspace.
pub open spec fn space_border(floating: bool) -> (Seq<char>, Seq<char>) {
    if floating {
        (MAUVE@, "2"@)
    } else {
        ("0x00000000"@, "0"@)
    }
}

/// How the background of a workspace is drawn: by a bracket around its items, or, where it has no
/// windows to show, by its own item.
pub open spec fn tail_args(sid: nat, look: Look) -> Seq<Seq<char>> {
    let color = "background.color="@ + space_color(look.focused);
    let border_color = "background.border_color="@ + space_border(look.floating).0;
    let border_width = "background.border_width="@ + space_border(look.floating).1;
    let bracket = bracket_name(sid);
    if look.groups.len() > 0 {
        seq!["--add"@, "bracket"@, bracket, space_name(sid)] + item_names(sid, look.groups.len())
            + seq![
            "--set"@,
            bracket,
            color,
            border_color,
            border_width,
            "background.corner_radius=8"@,
            "background.height=26"@,
            "background.drawing=on"@,
        ]
    } else {
        seq![
            "--set"@,
            space_name(sid),
            "background.drawing=on"@,
            color,
            border_color,
            border_width,
            "--remove"@,
            bracket,
        ]
    }
}

/// All that is said of a workspace.
pub open spec fn space_args(sid: nat, look: Look) -> Seq<Seq<char>> {
    head_args(sid, look.focused) + look.display + groups_args(sid, look.groups.len(), look)
        + tail_args(sid, look)
}

/// The items that a workspace has, besides its own.
pub open spec fn space_items(sid: nat, look: Look) -> Space {
    Space {
        space: decimal(sid),
        names: item_names(sid, look.groups.len()).push(bracket_name(sid)),
    }
}

/// All that is said of the workspaces up to `n`.
pub open spec fn spaces_args(
    n: nat,
    focused_workspace: Seq<char>,
    icons: Map<Seq<char>, Seq<char>>,
    replies: Replies,
) -> Seq<Seq<char>>
    decreases n,
{
    if n == 0 {
        Seq::empty()
    } else {
        spaces_args((n - 1) as nat, focused_workspace, icons, replies) + space_args(
            n,
            look_of(n, focused_workspace, icons, replies),
        )
    }
}

/// The items of the workspaces up to `n`.
pub open spec fn spaces_items(
    n: nat,
    focused_workspace: Seq<char>,
    icons: Map<Seq<char>, Seq<char>>,
    replies: Replies,
) -> Seq<Space> {
    Seq::new(
        n,
        |i: int|
            space_items((i + 1) as nat, look_of((i + 1) as nat, focused_workspace, icons, replies)),
    )
}

/// The items of a workspace, none for one that is not listed.
pub open spec fn names_of(items: Seq<Space>, space: Seq<char>) -> Seq<Seq<char>>
    decreases items.len(),
{
    if items.len() == 0 {
        Seq::empty()
    } else if items[0].space == space {
        items[0].names
    } else {
        names_of(items.skip(1), space)
    }
}

/// How those of `names` are removed that are not in `current`.
pub open spec fn name_removals(names: Seq<Seq<char>>, current: Seq<Seq<char>>) -> Seq<Seq<char>>
    decreases names.len(),
{
    if names.len() == 0 {
        Seq::empty()
    } else {
        let before = name_removals(names.drop_last(), current);
        if current.contains(names.last()) {
            before
        } else {
            before + seq!["--remove"@, names.last()]
        }
    }
}

/// How the items of an earlier update are removed that are not in this one.
pub open spec fn removals(earlier: Seq<Space>, items: Seq<Space>) -> Seq<Seq<char>>
    decreases earlier.len(),
{
    if earlier.len() == 0 {
        Seq::empty()
    } else {
        removals(earlier.drop_last(), items) + name_removals(
            earlier.last().names,
            names_of(items, earlier.last().space),
        )
    }
}

/// All that an update says to the bar.
pub open spec fn bar_args(
    focused_workspace: Seq<char>,
    icons: Map<Seq<char>, Seq<char>>,
    earlier: Seq<Space>,
    replies: Replies,
) -> Seq<Seq<char>> {
    spaces_args(SPACES as nat, focused_workspace, icons, replies) + removals(
        earlier,
        bar_items(focused_workspace, icons, replies),
    )
}

/// The items that the bar has after an update.
pub open spec fn bar_items(
    focused_workspace: Seq<char>,
    icons: Map<Seq<char>, Seq<char>>,
    replies: Replies,
) -> Seq<Space> {
    spaces_items(SPACES as nat, focused_workspace, icons, replies)
}

/// What the bar shows of workspace `sid`, whose name is `space`.
fn make_look(
    space: &str,
    focused_workspace: &str,
    icons: &IconMap,
    windows: &Vec<WindowInfo>,
    floating: &StringHashSet,
    replies: &BarReplies,
) -> (look: SpaceLook)
    requires
        windows_view(windows@) == windows_in(lines_of(replies@.windows), replies@.hidden),
        forall|name: Seq<char>| #[trigger]
            floating@.contains(name) <==> names_floating(replies@.floating, name),
    ensures
        forall|sid: nat|
            space@ == #[trigger] decimal(sid) ==> look@ == look_of(
                sid,
                focused_workspace@,
                icons@,
                replies@,
            ),
{
    let count: usize = monitor_count(&replies.monitor_count);
    let monitors = match &replies.monitors {
        Some(monitors) => monitors.as_str(),
        None => "",
    };
    let focused_app = match &replies.focused_app {
        Some(app) => app.as_str(),
        None => "",
    };
    proof {
        reveal_strlit("");
        assert(monitors@ == replies@.monitors);
        assert(focused_app@ == replies@.focused_app);
    }
    let here = arranged(windows, space);
    SpaceLook {
        focused: same(space, focused_workspace),
        floating: floating.contains(space),
        display: make_display(count, monitors, space),
        groups: make_groups(&here, focused_app, icons),
    }
}

/// Names the item of a workspace.
fn make_space_name(sid: u64) -> (name: String)
    ensures
        name@ == space_name(sid as nat),
{
    chain("space.", write_decimal(sid).as_str())
}

/// Names the item of a group of windows.
fn make_item_name(sid: u64, idx: u64) -> (name: String)
    ensures
        name@ == item_name(sid as nat, idx as nat),
{
    let mut name = chain("ws", write_decimal(sid).as_str());
    name.append(".g");
    name.append(write_decimal(idx).as_str());
    name
}

/// Names the bracket around a workspace's items.
fn make_bracket_name(sid: u64) -> (name: String)
    ensures
        name@ == bracket_name(sid as nat),
{
    let mut name = chain("ws", write_decimal(sid).as_str());
    name.append(".bracket");
    name
}

/// Says how a workspace's own item is set.
fn add_head(args: &mut Vec<String>, sid: u64, focused: bool)
    ensures
        texts(final(args)@) == texts(old(args)@) + head_args(sid as nat, focused),
{
    let state = if focused {
        "on"
    } else {
        "off"
    };
    let name = make_space_name(sid);
    let icon = chain("icon.highlight=", state);
    let label = chain("label.highlight=", state);
    let ghost said = head_args(sid as nat, focused);
    let list: [&str; 9] = [
        "--set",
        name.as_str(),
        "label=",
        icon.as_str(),
        label.as_str(),
        "background.drawing=off",
        "icon.padding_right=5",
        "label.padding_left=0",
        "label.padding_right=0",
    ];
    assert(slices(list@) == said);
    add_all(args, &list);
}

/// The colour of an item.
fn make_item_color(group: &IconGroup) -> (color: &'static str)
    ensures
        color@ == item_color(group@),
{
    if group.is_floating {
        if group.has_focused {
            MAUVE
        } else {
            MAUVE_DIM
        }
    } else if group.has_focused {
        "0xffcdd6f4"
    } else {
        "0xff6c7086"
    }
}

/// Says how an item is added and labelled.
fn add_label(args: &mut Vec<String>, name: &str, group: &IconGroup)
    ensures
        texts(final(args)@) == texts(old(args)@) + label_args(name@, group@),
{
    let label = chain("label=", join(&group.icons, " ").as_str());
    let color = chain("label.color=", make_item_color(group));
    let list: [&str; 13] = [
        "--add",
        "item",
        name,
        "left",
        "--set",
        name,
        label.as_str(),
        color.as_str(),
        "label.font=sketchybar-app-font:Regular:13.0",
        "label.y_offset=0",
        "icon.drawing=off",
        "label.padding_left=4",
        "label.padding_right=4",
    ];
    assert(slices(list@) == label_args(name@, group@));
    add_all(args, &list);
}

/// Says what background an item has.
fn add_pill(args: &mut Vec<String>, is_accordion: bool)
    ensures
        texts(final(args)@) == texts(old(args)@) + pill_args(is_accordion),
{
    if is_accordion {
        let list: [&str; 7] = [
            "background.drawing=on",
            "background.color=0xff45475a",
            "background.corner_radius=8",
            "background.border_width=0",
            "background.height=26",
            "background.padding_left=2",
            "background.padding_right=2",
        ];
        assert(slices(list@) == pill_args(true));
        add_all(args, &list);
    } else {
        let list: [&str; 1] = ["background.drawing=off"];
        assert(slices(list@) == pill_args(false));
        add_all(args, &list);
    }
}

/// Adds copies of the strings in `more`.
fn add_copies(args: &mut Vec<String>, more: &Vec<String>)
    ensures
        texts(final(args)@) == texts(old(args)@) + texts(more@),
{
    let ghost before = texts(args@);
    let ghost all = texts(more@);
    let mut i: usize = 0;
    while i < more.len()
        invariant
            i <= more.len(),
            all == texts(more@),
            texts(args@) == before + all.take(i as int),
        decreases more.len() - i,
    {
        let ghost now = texts(args@);
        let one = more[i].clone();
        args.push(one);
        assert(texts(args@) == now.push(one@));
        assert(all[i as int] == one@);
        assert(all.take(i + 1) == all.take(i as int).push(one@));
        i += 1;
    }
    assert(all.take(i as int) == all);
}

/// Says how the items of a workspace's groups are added, set and placed, and names them.
fn add_groups(args: &mut Vec<String>, sid: u64, look: &SpaceLook) -> (names: Vec<String>)
    ensures
        texts(final(args)@) == texts(old(args)@) + groups_args(
            sid as nat,
            look@.groups.len(),
            look@,
        ),
        texts(names@) == item_names(sid as nat, look@.groups.len()),
{
    let ghost before = texts(args@);
    let mut names: Vec<String> = Vec::new();
    let mut after = make_space_name(sid);
    let mut idx: usize = 0;
    while idx < look.groups.len()
        invariant
            idx <= look.groups.len(),
            texts(args@) == before + groups_args(sid as nat, idx as nat, look@),
            texts(names@) == item_names(sid as nat, idx as nat),
            after@ == item_before(sid as nat, idx as nat),
        decreases look.groups.len() - idx,
    {
        let ghost start = texts(args@);
        let ghost names_before = texts(names@);
        let group = &look.groups[idx];
        assert(look@.groups[idx as int] == group@);
        let name = make_item_name(sid, idx as u64);
        add_label(args, name.as_str(), group);
        add_pill(args, group.is_accordion);
        add_copies(args, &look.display);
        let moved: [&str; 4] = ["--move", name.as_str(), "after", after.as_str()];
        assert(slices(moved@) == move_args(name@, after@));
        add_all(args, &moved);
        proof {
            let said = group_args(sid as nat, idx as nat, group@, look@.display);
            assert(texts(args@) == start + said);
            assert(texts(args@) == before + groups_args(sid as nat, (idx + 1) as nat, look@));
        }
        after = name.clone();
        names.push(name);
        assert(texts(names@) == names_before.push(name@));
        assert(texts(names@) == item_names(sid as nat, (idx + 1) as nat));
        idx += 1;
    }
    names
}

/// Says how the background of a workspace is drawn.
fn add_tail(args: &mut Vec<String>, sid: u64, look: &SpaceLook, names: &Vec<String>)
    requires
        texts(names@) == item_names(sid as nat, look@.groups.len()),
    ensures
        texts(final(args)@) == texts(old(args)@) + tail_args(sid as nat, look@),
{
    let ghost start = texts(args@);
    let color = chain(
        "background.color=",
        if look.focused {
            "0xff313244"
        } else {
            "0x00000000"
        },
    );
    let border_color = chain(
        "background.border_color=",
        if look.floating {
            MAUVE
        } else {
            "0x00000000"
        },
    );
    let border_width = chain(
        "background.border_width=",
        if look.floating {
            "2"
        } else {
            "0"
        },
    );
    let name = make_space_name(sid);
    let bracket = make_bracket_name(sid);
    assert(item_names(sid as nat, look@.groups.len()).len() == look@.groups.len());
    if names.len() > 0 {
        let opened: [&str; 4] = ["--add", "bracket", bracket.as_str(), name.as_str()];
        let ghost first = seq!["--add"@, "bracket"@, bracket@, name@];
        assert(slices(opened@) == first);
        add_all(args, &opened);
        add_copies(args, names);
        let drawn: [&str; 8] = [
            "--set",
            bracket.as_str(),
            color.as_str(),
            border_color.as_str(),
            border_width.as_str(),
            "background.corner_radius=8",
            "background.height=26",
            "background.drawing=on",
        ];
        let ghost last = seq![
            "--set"@,
            bracket@,
            color@,
            border_color@,
            border_width@,
            "background.corner_radius=8"@,
            "background.height=26"@,
            "background.drawing=on"@,
        ];
        assert(slices(drawn@) == last);
        add_all(args, &drawn);
        assert(texts(args@) == start + (first + texts(names@) + last));
    } else {
        let drawn: [&str; 8] = [
            "--set",
            name.as_str(),
            "background.drawing=on",
            color.as_str(),
            border_color.as_str(),
            border_width.as_str(),
            "--remove",
            bracket.as_str(),
        ];
        assert(slices(drawn@) == tail_args(sid as nat, look@));
        add_all(args, &drawn);
    }
}

/// Says all that is to be said of a workspace, and names its items.
fn add_space(args: &mut Vec<String>, sid: u64, space: String, look: &SpaceLook) -> (items:
    SpaceItems)
    requires
        space@ == decimal(sid as nat),
    ensures
        texts(final(args)@) == texts(old(args)@) + space_args(sid as nat, look@),
        items@ == space_items(sid as nat, look@),
{
    let ghost start = texts(args@);
    add_head(args, sid, look.focused);
    add_copies(args, &look.display);
    let mut names = add_groups(args, sid, look);
    add_tail(args, sid, look, &names);
    assert(texts(args@) == start + space_args(sid as nat, look@));
    let ghost before = texts(names@);
    let bracket = make_bracket_name(sid);
    names.push(bracket);
    assert(texts(names@) == before.push(bracket@));
    SpaceItems { space, names }
}

/// The items of a workspace, none for one that is not listed.
fn find_names<'a>(items: &'a Vec<SpaceItems>, space: &str) -> (names: Option<&'a Vec<String>>)
    ensures
        names_of(spaces_view(items@), space@) == match names {
            Some(names) => texts(names@),
            None => Seq::<Seq<char>>::empty(),
        },
{
    let ghost all = spaces_view(items@);
    let mut i: usize = 0;
    assert(all.skip(0) == all);
    while i < items.len()
        invariant
            i <= items.len(),
            all == spaces_view(items@),
            names_of(all, space@) == names_of(all.skip(i as int), space@),
        decreases items.len() - i,
    {
        assert(all.skip(i as int)[0] == items[i as int]@);
        if same(items[i].space.as_str(), space) {
            return Some(&items[i].names);
        }
        assert(all.skip(i as int).skip(1) == all.skip(i + 1));
        i += 1;
    }
    None
}

/// Says which items of an earlier update are removed.
fn add_removals(args: &mut Vec<String>, earlier: &Vec<SpaceItems>, items: &Vec<SpaceItems>)
    ensures
        texts(final(args)@) == texts(old(args)@) + removals(
            spaces_view(earlier@),
            spaces_view(items@),
        ),
{
    let ghost start = texts(args@);
    let ghost olds = spaces_view(earlier@);
    let ghost news = spaces_view(items@);
    let mut i: usize = 0;
    assert(olds.take(0) == Seq::<Space>::empty());
    while i < earlier.len()
        invariant
            i <= earlier.len(),
            olds == spaces_view(earlier@),
            news == spaces_view(items@),
            texts(args@) == start + removals(olds.take(i as int), news),
        decreases earlier.len() - i,
    {
        let ghost before = texts(args@);
        let old_space = &earlier[i];
        assert(olds[i as int] == old_space@);
        assert(olds.take(i + 1).drop_last() == olds.take(i as int));
        assert(olds.take(i + 1).last() == old_space@);
        let current = find_names(items, old_space.space.as_str());
        let ghost present = names_of(news, old_space@.space);
        let ghost names = texts(old_space.names@);
        let mut j: usize = 0;
        assert(names.take(0) == Seq::<Seq<char>>::empty());
        while j < old_space.names.len()
            invariant
                j <= old_space.names.len(),
                names == texts(old_space.names@),
                present == match current {
                    Some(list) => texts(list@),
                    None => Seq::<Seq<char>>::empty(),
                },
                texts(args@) == before + name_removals(names.take(j as int), present),
            decreases old_space.names.len() - j,
        {
            let name = &old_space.names[j];
            assert(names[j as int] == name@);
            assert(names.take(j + 1).drop_last() == names.take(j as int));
            let kept = match current {
                Some(list) => listed(list, name.as_str()),
                None => false,
            };
            if !kept {
                let ghost now = texts(args@);
                let pair: [&str; 2] = ["--remove", name.as_str()];
                assert(slices(pair@) == seq!["--remove"@, name@]);
                add_all(args, &pair);
                assert(texts(args@) == now + seq!["--remove"@, name@]);
            }
            assert(texts(args@) == before + name_removals(names.take(j + 1), present));
            j += 1;
        }
        assert(names.take(j as int) == names);
        assert(texts(args@) == start + removals(olds.take(i + 1), news));
        i += 1;
    }
    assert(olds.take(i as int) == olds);
}

/// What an update says to the bar, and the items that the bar has after it.
pub fn render(focused_workspace: &str, snapshot: &BarSnapshot, replies: &BarReplies) -> (drawn: (
    Vec<String>,
    Vec<SpaceItems>,
))
    ensures
        texts(drawn.0@) == bar_args(
            focused_workspace@,
            snapshot.icons@,
            spaces_view(snapshot.items@),
            replies@,
        ),
        spaces_view(drawn.1@) == bar_items(focused_workspace@, snapshot.icons@, replies@),
{
    let icons: &IconMap = &snapshot.icons;
    let listing = match &replies.windows {
        Some(listing) => listing.as_str(),
        None => "",
    };
    proof {
        reveal_strlit("");
        assert(listing@ == replies@.windows);
    }
    let windows = read_windows(listing, &replies.hidden);
    let floating = load_floating_workspaces(
        match &replies.floating {
            Some(file) => Some(file.as_str()),
            None => None,
        },
    );
    let mut args: Vec<String> = Vec::new();
    let mut items: Vec<SpaceItems> = Vec::new();
    let mut sid: u64 = 0;
    assert(texts(args@) == Seq::<Seq<char>>::empty());
    while sid < SPACES
        invariant
            sid <= SPACES,
            icons@ == snapshot.icons@,
            windows_view(windows@) == windows_in(lines_of(replies@.windows), replies@.hidden),
            forall|name: Seq<char>| #[trigger]
                floating@.contains(name) <==> names_floating(replies@.floating, name),
            texts(args@) == spaces_args(sid as nat, focused_workspace@, icons@, replies@),
            spaces_view(items@) == spaces_items(sid as nat, focused_workspace@, icons@, replies@),
        decreases SPACES - sid,
    {
        sid += 1;
        let space = write_decimal(sid);
        let look = make_look(
            space.as_str(),
            focused_workspace,
            icons,
            &windows,
            &floating,
            replies,
        );
        let ghost before = spaces_view(items@);
        let one = add_space(&mut args, sid, space, &look);
        items.push(one);
        assert(spaces_view(items@) == before.push(one@));
        assert(spaces_view(items@) == spaces_items(
            sid as nat,
            focused_workspace@,
            icons@,
            replies@,
        ));
    }
    add_removals(&mut args, &snapshot.items, &items);
    (args, items)
}

/// Decides how to update the bar, from what it showed before and what was found out since, and
/// remembers the items that it then has. Nothing is done where there is no bar, and nothing is
/// started where as many child processes run as may.
pub fn update_sketchybar(
    focused_workspace: &str,
    snapshot: Option<BarSnapshot>,
    replies: &BarReplies,
    state: &mut HelperState,
) -> (started: Option<Invocation>)
    ensures
        final(state)@ == match snapshot {
            Some(taken) => State {
                items: bar_items(focused_workspace@, taken.icons@, replies@),
                ..old(state)@
            },
            None => old(state)@,
        },
        started is Some <==> snapshot is Some && old(state)@.child_count
            < MAX_CHILD_PROCS,
        started matches Some(started) ==> snapshot matches Some(taken) && started@ == (
        Command {
            program: SKETCHYBAR@,
            args: bar_args(focused_workspace@, taken.icons@, spaces_view(taken.items@), replies@),
        }),
{
    match snapshot {
        Some(taken) => {
            let (args, items) = render(focused_workspace, &taken, replies);
            proof {
                law_spaces_differ(focused_workspace@, taken.icons@, replies@);
            }
            state.set_items(items);
            spawn_and_reap(SKETCHYBAR, args, state)
        },
        None => None,
    }
}

} // verus!
