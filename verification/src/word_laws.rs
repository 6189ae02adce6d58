//! What an update says to the bar, word for word.

use vstd::prelude::*;

use crate::bar::{
    bar_args, bar_items, group_args, groups_args, head_args, item_names, look_of, name_removals,
    names_floating, names_of, removals, space_args, spaces_args, tail_args, BarReplies, Look,
    Replies, SpaceLook, SPACES,
};
use crate::bar_laws::{law_every_item_drawn, lemma_says_inside, lemma_space_said, says};
use crate::number::decimal;
use crate::state::{spaces_view, Space, SpaceItems};
use crate::text::{joined, lines_of};
use crate::windows::{
    groups_of, groups_view, in_tree_order, lemma_filter_push, on_workspace, windows_in, Group,
};

verus! {

/// All that is said of a workspace is said in the whole update.
proof fn lemma_said_in_update(
    sid: nat,
    focused_workspace: Seq<char>,
    icons: Map<Seq<char>, Seq<char>>,
    earlier: Seq<Space>,
    replies: Replies,
    part: Seq<Seq<char>>,
)
    requires
        1 <= sid <= SPACES,
        says(space_args(sid, look_of(sid, focused_workspace, icons, replies)), part),
    ensures
        says(bar_args(focused_workspace, icons, earlier, replies), part),
{
    let none = Seq::<Seq<char>>::empty();
    lemma_space_said(SPACES as nat, sid, focused_workspace, icons, replies, part);
    let said = spaces_args(SPACES as nat, focused_workspace, icons, replies);
    let gone = removals(earlier, bar_items(focused_workspace, icons, replies));
    lemma_says_inside(none, said, gone, part);
    assert(none + said + gone == said + gone);
}

/// Each of the nine workspaces has its own item set: without a label, with its number highlighted
/// just where it has the focus, without a background of its own, and on its monitor.
pub proof fn law_workspace_set(
    sid: nat,
    focused_workspace: Seq<char>,
    icons: Map<Seq<char>, Seq<char>>,
    earlier: Seq<Space>,
    replies: Replies,
)
    requires
        1 <= sid <= 9,
    ensures
        ({
            let focused = decimal(sid) == focused_workspace;
            says(
                bar_args(focused_workspace, icons, earlier, replies),
                seq![
                    "--set"@,
                    "space."@ + decimal(sid),
                    "label="@,
                    if focused {
                        "icon.highlight=on"@
                    } else {
                        "icon.highlight=off"@
                    },
                    if focused {
                        "label.highlight=on"@
                    } else {
                        "label.highlight=off"@
                    },
                    "background.drawing=off"@,
                    "icon.padding_right=5"@,
                    "label.padding_left=0"@,
                    "label.padding_right=0"@,
                ] + look_of(sid, focused_workspace, icons, replies).display,
            )
        }),
{
    let look = look_of(sid, focused_workspace, icons, replies);
    let focused = decimal(sid) == focused_workspace;
    let words = seq![
        "--set"@,
        "space."@ + decimal(sid),
        "label="@,
        if focused {
            "icon.highlight=on"@
        } else {
            "icon.highlight=off"@
        },
        if focused {
            "label.highlight=on"@
        } else {
            "label.highlight=off"@
        },
        "background.drawing=off"@,
        "icon.padding_right=5"@,
        "label.padding_left=0"@,
        "label.padding_right=0"@,
    ];
    reveal_strlit("icon.highlight=");
    reveal_strlit("icon.highlight=on");
    reveal_strlit("icon.highlight=off");
    reveal_strlit("label.highlight=");
    reveal_strlit("label.highlight=on");
    reveal_strlit("label.highlight=off");
    reveal_strlit("on");
    reveal_strlit("off");
    assert("icon.highlight="@ + "on"@ == "icon.highlight=on"@);
    assert("icon.highlight="@ + "off"@ == "icon.highlight=off"@);
    assert("label.highlight="@ + "on"@ == "label.highlight=on"@);
    assert("label.highlight="@ + "off"@ == "label.highlight=off"@);
    assert(head_args(sid, look.focused) == words);
    let part = words + look.display;
    let args = space_args(sid, look);
    assert(args.subrange(0, 0 + part.len() as int) == part);
    lemma_said_in_update(sid, focused_workspace, icons, earlier, replies, part);
}

/// The item of each group of each workspace is added, labelled with the icons of the group,
/// coloured by whether the group floats and has the focus, drawn as a pill where it is an
/// accordion, put on the monitor of the workspace, and placed after the item before it: the
/// workspace's own for the first.
pub proof fn law_item_said(
    sid: nat,
    idx: nat,
    focused_workspace: Seq<char>,
    icons: Map<Seq<char>, Seq<char>>,
    earlier: Seq<Space>,
    replies: Replies,
)
    requires
        1 <= sid <= 9,
        idx < look_of(sid, focused_workspace, icons, replies).groups.len(),
    ensures
        ({
            let look = look_of(sid, focused_workspace, icons, replies);
            let group = look.groups[idx as int];
            let name = "ws"@ + decimal(sid) + ".g"@ + decimal(idx);
            says(
                bar_args(focused_workspace, icons, earlier, replies),
                seq![
                    "--add"@,
                    "item"@,
                    name,
                    "left"@,
                    "--set"@,
                    name,
                    "label="@ + joined(group.icons, " "@),
                    match (group.is_floating, group.has_focused) {
                        (true, true) => "label.color=0xffcba6f7"@,
                        (true, false) => "label.color=0x99cba6f7"@,
                        (false, true) => "label.color=0xffcdd6f4"@,
                        (false, false) => "label.color=0xff6c7086"@,
                    },
                    "label.font=sketchybar-app-font:Regular:13.0"@,
                    "label.y_offset=0"@,
                    "icon.drawing=off"@,
                    "label.padding_left=4"@,
                    "label.padding_right=4"@,
                ] + if group.is_accordion {
                    seq![
                        "background.drawing=on"@,
                        "background.color=0xff45475a"@,
                        "background.corner_radius=8"@,
                        "background.border_width=0"@,
                        "background.height=26"@,
                        "background.padding_left=2"@,
                        "background.padding_right=2"@,
                    ]
                } else {
                    seq!["background.drawing=off"@]
                } + look.display + seq![
                    "--move"@,
                    name,
                    "after"@,
                    if idx == 0 {
                        "space."@ + decimal(sid)
                    } else {
                        "ws"@ + decimal(sid) + ".g"@ + decimal((idx - 1) as nat)
                    },
                ],
            )
        }),
{
    reveal_strlit("label.color=");
    reveal_strlit("0xffcba6f7");
    reveal_strlit("0x99cba6f7");
    reveal_strlit("0xffcdd6f4");
    reveal_strlit("0xff6c7086");
    reveal_strlit("label.color=0xffcba6f7");
    reveal_strlit("label.color=0x99cba6f7");
    reveal_strlit("label.color=0xffcdd6f4");
    reveal_strlit("label.color=0xff6c7086");
    assert("label.color="@ + "0xffcba6f7"@ == "label.color=0xffcba6f7"@);
    assert("label.color="@ + "0x99cba6f7"@ == "label.color=0x99cba6f7"@);
    assert("label.color="@ + "0xffcdd6f4"@ == "label.color=0xffcdd6f4"@);
    assert("label.color="@ + "0xff6c7086"@ == "label.color=0xff6c7086"@);
    let look = look_of(sid, focused_workspace, icons, replies);
    let group = look.groups[idx as int];
    let name = "ws"@ + decimal(sid) + ".g"@ + decimal(idx);
    let words = seq![
        "--add"@,
        "item"@,
        name,
        "left"@,
        "--set"@,
        name,
        "label="@ + joined(group.icons, " "@),
        match (group.is_floating, group.has_focused) {
            (true, true) => "label.color=0xffcba6f7"@,
            (true, false) => "label.color=0x99cba6f7"@,
            (false, true) => "label.color=0xffcdd6f4"@,
            (false, false) => "label.color=0xff6c7086"@,
        },
        "label.font=sketchybar-app-font:Regular:13.0"@,
        "label.y_offset=0"@,
        "icon.drawing=off"@,
        "label.padding_left=4"@,
        "label.padding_right=4"@,
    ] + if group.is_accordion {
        seq![
            "background.drawing=on"@,
            "background.color=0xff45475a"@,
            "background.corner_radius=8"@,
            "background.border_width=0"@,
            "background.height=26"@,
            "background.padding_left=2"@,
            "background.padding_right=2"@,
        ]
    } else {
        seq!["background.drawing=off"@]
    } + look.display + seq![
        "--move"@,
        name,
        "after"@,
        if idx == 0 {
            "space."@ + decimal(sid)
        } else {
            "ws"@ + decimal(sid) + ".g"@ + decimal((idx - 1) as nat)
        },
    ];
    assert(group_args(sid, idx, group, look.display) == words);
    law_every_item_drawn(sid, idx, focused_workspace, icons, earlier, replies);
}

/// A workspace with groups has a bracket around its own item and theirs, in their order, that
/// draws its background; one without has its own item draw it, and its bracket removed. The
/// background shows whether the workspace has the focus, and its border whether it is in floating
/// mode.
pub proof fn law_background_said(
    sid: nat,
    focused_workspace: Seq<char>,
    icons: Map<Seq<char>, Seq<char>>,
    earlier: Seq<Space>,
    replies: Replies,
)
    requires
        1 <= sid <= 9,
    ensures
        ({
            let look = look_of(sid, focused_workspace, icons, replies);
            let space = "space."@ + decimal(sid);
            let bracket = "ws"@ + decimal(sid) + ".bracket"@;
            let color = if decimal(sid) == focused_workspace {
                "background.color=0xff313244"@
            } else {
                "background.color=0x00000000"@
            };
            let (border_color, border_width) = if look.floating {
                ("background.border_color=0xffcba6f7"@, "background.border_width=2"@)
            } else {
                ("background.border_color=0x00000000"@, "background.border_width=0"@)
            };
            let n = look.groups.len();
            says(
                bar_args(focused_workspace, icons, earlier, replies),
                if n > 0 {
                    seq!["--add"@, "bracket"@, bracket, space] + Seq::new(
                        n,
                        |i: int| "ws"@ + decimal(sid) + ".g"@ + decimal(i as nat),
                    ) + seq![
                        "--set"@,
                        bracket,
                        color,
                        border_color,
                        border_width,
                        "background.corner_radius=8"@,
                        "background.height=26"@,
                        "background.drawing=on"@,
                    ]
                } else {
                    seq![
                        "--set"@,
                        space,
                        "background.drawing=on"@,
                        color,
                        border_color,
                        border_width,
                        "--remove"@,
                        bracket,
                    ]
                },
            )
        }),
{
    let look = look_of(sid, focused_workspace, icons, replies);
    reveal_strlit("background.color=");
    reveal_strlit("background.border_color=");
    reveal_strlit("background.border_width=");
    reveal_strlit("0xff313244");
    reveal_strlit("0x00000000");
    reveal_strlit("0xffcba6f7");
    reveal_strlit("2");
    reveal_strlit("0");
    reveal_strlit("background.color=0xff313244");
    reveal_strlit("background.color=0x00000000");
    reveal_strlit("background.border_color=0xffcba6f7");
    reveal_strlit("background.border_color=0x00000000");
    reveal_strlit("background.border_width=2");
    reveal_strlit("background.border_width=0");
    assert("background.color="@ + "0xff313244"@ == "background.color=0xff313244"@);
    assert("background.color="@ + "0x00000000"@ == "background.color=0x00000000"@);
    assert("background.border_color="@ + "0xffcba6f7"@ == "background.border_color=0xffcba6f7"@);
    assert("background.border_color="@ + "0x00000000"@ == "background.border_color=0x00000000"@);
    assert("background.border_width="@ + "2"@ == "background.border_width=2"@);
    assert("background.border_width="@ + "0"@ == "background.border_width=0"@);
    assert(item_names(sid, look.groups.len()) == Seq::new(
        look.groups.len(),
        |i: int| "ws"@ + decimal(sid) + ".g"@ + decimal(i as nat),
    ));
    let args = space_args(sid, look);
    let part = tail_args(sid, look);
    let p = args.len() - part.len();
    assert(args.subrange(p, p + part.len() as int) == part);
    lemma_said_in_update(sid, focused_workspace, icons, earlier, replies, part);
}

/// How many words there are on the first `n` groups.
proof fn lemma_groups_counted(sid: nat, n: nat, look: Look)
    requires
        n <= look.groups.len(),
    ensures
        groups_args(sid, n, look).len() == n * (18 + look.display.len()) + 6 * look.groups.take(
            n as int,
        ).filter(|group: Group| group.is_accordion).len(),
    decreases n,
{
    let pills = |group: Group| group.is_accordion;
    if n == 0 {
        reveal(Seq::filter);
    } else {
        let m = (n - 1) as nat;
        let group = look.groups[n - 1];
        lemma_groups_counted(sid, m, look);
        assert(look.groups.take(n as int) == look.groups.take(m as int).push(group));
        lemma_filter_push(look.groups.take(m as int), group, pills);
        let d = look.display.len();
        assert(group_args(sid, m, group, look.display).len() == 18 + d + if group.is_accordion {
            6nat
        } else {
            0
        });
        assert(n * (18 + d) == m * (18 + d) + (18 + d)) by (nonlinear_arith)
            requires
                n == m + 1,
        ;
    }
}

/// An update says no more of a workspace than what it says of its own item, of each of its groups
/// and of its background: so many words.
pub proof fn law_words_counted(sid: nat, look: Look)
    ensures
        space_args(sid, look).len() == 9 + look.display.len() + look.groups.len() * (18
            + look.display.len()) + 6 * look.groups.filter(
            |group: Group| group.is_accordion,
        ).len() + if look.groups.len() > 0 {
            12 + look.groups.len()
        } else {
            8
        },
{
    lemma_groups_counted(sid, look.groups.len(), look);
    assert(look.groups.take(look.groups.len() as int) == look.groups);
}

/// Workspaces come one after another, from the first to the ninth, and removals of earlier items
/// come last; nothing else is said.
pub proof fn law_said_in_turn(
    sid: nat,
    focused_workspace: Seq<char>,
    icons: Map<Seq<char>, Seq<char>>,
    earlier: Seq<Space>,
    replies: Replies,
)
    requires
        1 <= sid,
    ensures
        spaces_args(0, focused_workspace, icons, replies).len() == 0,
        spaces_args(sid, focused_workspace, icons, replies) == spaces_args(
            (sid - 1) as nat,
            focused_workspace,
            icons,
            replies,
        ) + space_args(sid, look_of(sid, focused_workspace, icons, replies)),
        bar_args(focused_workspace, icons, earlier, replies) == spaces_args(
            9,
            focused_workspace,
            icons,
            replies,
        ) + removals(earlier, bar_items(focused_workspace, icons, replies)),
{
}

/// What the bar shows of a workspace: whether its number is that of the focused one, whether the
/// file names it as floating, and the items for those windows of the reply, hidden ones left out,
/// that are on it, in the order of the tree.
pub proof fn law_look(
    sid: nat,
    focused_workspace: Seq<char>,
    icons: Map<Seq<char>, Seq<char>>,
    replies: Replies,
)
    ensures
        ({
            let look = look_of(sid, focused_workspace, icons, replies);
            let windows = windows_in(lines_of(replies.windows), replies.hidden);
            let here = in_tree_order(on_workspace(windows, decimal(sid)));
            &&& look.focused <==> focused_workspace == decimal(sid)
            &&& look.floating <==> names_floating(replies.floating, decimal(sid))
            &&& look.groups == groups_of(here, replies.focused_app, icons)
        }),
{
}

/// After an update the items of nine workspaces are remembered, under their numbers: one for each
/// group, in their order, and the bracket.
pub proof fn law_nine_remembered(
    focused_workspace: Seq<char>,
    icons: Map<Seq<char>, Seq<char>>,
    replies: Replies,
    i: int,
    k: int,
)
    requires
        0 <= i < 9,
    ensures
        ({
            let items = bar_items(focused_workspace, icons, replies);
            let sid = (i + 1) as nat;
            let n = look_of(sid, focused_workspace, icons, replies).groups.len();
            &&& items.len() == 9
            &&& items[i].space == decimal(sid)
            &&& items[i].names.len() == n + 1
            &&& 0 <= k < n ==> items[i].names[k] == "ws"@ + decimal(sid) + ".g"@ + decimal(k as nat)
            &&& items[i].names[n as int] == "ws"@ + decimal(sid) + ".bracket"@
        }),
{
}

/// The items of a workspace are found at the first place where it is listed, and none where it is
/// not.
pub proof fn law_names_found(items: Seq<Space>, space: Seq<char>, k: int)
    requires
        0 <= k <= items.len(),
        forall|i: int| 0 <= i < k ==> (#[trigger] items[i]).space != space,
        k < items.len() ==> items[k].space == space,
    ensures
        k < items.len() ==> names_of(items, space) == items[k].names,
        k == items.len() ==> names_of(items, space).len() == 0,
    decreases k,
{
    if k > 0 {
        let rest = items.skip(1);
        assert(items[0].space != space);
        assert forall|i: int| 0 <= i < k - 1 implies (#[trigger] rest[i]).space != space by {
            assert(rest[i] == items[i + 1]);
        }
        law_names_found(rest, space, k - 1);
    }
}

/// What replies, workspaces and lists of items hold is what their parts do; a reply that is
/// missing counts as an empty one, but for those whose absence means something else.
pub proof fn law_views_of_replies(replies: BarReplies, look: SpaceLook, list: Seq<SpaceItems>)
    ensures
        replies@.hidden.len() == replies.hidden.len(),
        forall|i: int|
            0 <= i < replies.hidden.len() ==> #[trigger] replies@.hidden[i] == replies.hidden[i]@,
        replies.floating matches Some(file) ==> replies@.floating == Some(file@),
        replies.floating is None ==> replies@.floating is None,
        replies.windows matches Some(text) ==> replies@.windows == text@,
        replies.windows is None ==> replies@.windows.len() == 0,
        replies.focused_app matches Some(text) ==> replies@.focused_app == text@,
        replies.focused_app is None ==> replies@.focused_app.len() == 0,
        replies.monitor_count matches Some(text) ==> replies@.monitor_count == Some(text@),
        replies.monitor_count is None ==> replies@.monitor_count is None,
        replies.monitors matches Some(text) ==> replies@.monitors == text@,
        replies.monitors is None ==> replies@.monitors.len() == 0,
        look@.focused == look.focused,
        look@.floating == look.floating,
        look@.groups == groups_view(look.groups@),
        look@.display.len() == look.display.len(),
        forall|i: int|
            0 <= i < look.display.len() ==> #[trigger] look@.display[i] == look.display[i]@,
        spaces_view(list).len() == list.len(),
        forall|i: int|
            0 <= i < list.len() ==> (#[trigger] spaces_view(list)[i]).space == list[i].space@,
        forall|i: int|
            0 <= i < list.len() ==> (#[trigger] spaces_view(list)[i]).names.len()
                == list[i].names.len(),
        forall|i: int, k: int|
            0 <= i < list.len() && 0 <= k < list[i].names.len() ==> #[trigger] spaces_view(
                list,
            )[i].names[k] == list[i].names[k]@,
{
}

/// Names of one list and then of another are removed in turn; one name is removed, once, just where
/// it is not among those to keep.
pub proof fn law_names_removed_in_turn(
    name: Seq<char>,
    a: Seq<Seq<char>>,
    b: Seq<Seq<char>>,
    keep: Seq<Seq<char>>,
)
    ensures
        name_removals(a + b, keep) == name_removals(a, keep) + name_removals(b, keep),
        keep.contains(name) ==> name_removals(seq![name], keep).len() == 0,
        !keep.contains(name) ==> name_removals(seq![name], keep) == seq!["--remove"@, name],
    decreases b.len(),
{
    reveal_with_fuel(name_removals, 2);
    assert(seq![name].drop_last() == Seq::<Seq<char>>::empty());
    assert(seq![name].last() == name);
    if !keep.contains(name) {
        assert(name_removals(seq![name], keep) == seq!["--remove"@, name]);
    }
    if b.len() == 0 {
        assert(a + b == a);
        assert(name_removals(a, keep) + name_removals(b, keep) == name_removals(a, keep));
    } else {
        law_names_removed_in_turn(name, a, b.drop_last(), keep);
        assert((a + b).drop_last() == a + b.drop_last());
        assert((a + b).last() == b.last());
        assert(name_removals(a + b, keep) == name_removals(a, keep) + name_removals(b, keep));
    }
}

/// Workspaces of one list and then of another have their items removed in turn; of one workspace
/// those go that are not among the ones that it has now.
pub proof fn law_spaces_removed_in_turn(
    space: Space,
    a: Seq<Space>,
    b: Seq<Space>,
    items: Seq<Space>,
)
    ensures
        removals(a + b, items) == removals(a, items) + removals(b, items),
        removals(seq![space], items) == name_removals(space.names, names_of(items, space.space)),
    decreases b.len(),
{
    reveal_with_fuel(removals, 2);
    assert(seq![space].drop_last() == Seq::<Space>::empty());
    assert(seq![space].last() == space);
    assert(removals(seq![space], items) == name_removals(
        space.names,
        names_of(items, space.space),
    ));
    if b.len() == 0 {
        assert(a + b == a);
        assert(removals(a, items) + removals(b, items) == removals(a, items));
    } else {
        law_spaces_removed_in_turn(space, a, b.drop_last(), items);
        assert((a + b).drop_last() == a + b.drop_last());
        assert((a + b).last() == b.last());
        assert(removals(a + b, items) == removals(a, items) + removals(b, items));
    }
}

} // verus!
