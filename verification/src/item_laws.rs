//! Which items an update adds to the bar and which it removes, in all that it says.

use vstd::prelude::*;

use crate::bar::{
    bar_args, bar_items, bracket_name, display_args, group_args, groups_args, head_args,
    item_before, item_name, item_names, label_args, look_of, monitors_counted, move_args, pill_args,
    removals, space_args, space_name, spaces_args, tail_args, Look, Replies, SPACES,
};
use crate::bar_laws::{
    all_removals, flag_at, is_removed, is_stale, law_brackets_distinct, law_kinds_of_names_distinct,
    law_stale_items_removed, law_surplus_items_removed, removal_at,
};
use crate::number::decimal;
use crate::state::Space;
use crate::windows::Group;

verus! {

/// Whether arguments remove `name`.
pub open spec fn removes(args: Seq<Seq<char>>, name: Seq<char>) -> bool {
    exists|p: int|
        0 <= p && p + 1 < args.len() && #[trigger] args[p] == "--remove"@ && args[p + 1] == name
}

/// Whether arguments add an item or a bracket called `name`.
pub open spec fn adds(args: Seq<Seq<char>>, name: Seq<char>) -> bool {
    exists|p: int|
        0 <= p && p + 2 < args.len() && #[trigger] args[p] == "--add"@ && args[p + 2] == name
}

/// Whether a word neither removes nor adds.
spec fn is_plain(word: Seq<char>) -> bool {
    word != "--remove"@ && word != "--add"@
}

/// Whether no removal and no addition is left unfinished at the end of arguments.
spec fn is_finished(args: Seq<Seq<char>>) -> bool {
    &&& args.len() >= 1 ==> is_plain(args[args.len() - 1])
    &&& args.len() >= 2 ==> args[args.len() - 2] != "--add"@
}

/// Whether none of the words removes or adds.
spec fn all_plain(args: Seq<Seq<char>>) -> bool {
    forall|p: int| 0 <= p < args.len() ==> is_plain(#[trigger] args[p])
}

/// A word that does not begin with a dash neither removes nor adds.
proof fn lemma_plain(word: Seq<char>)
    requires
        word.len() > 0,
        word[0] != '-',
    ensures
        is_plain(word),
{
    reveal_strlit("--remove");
    reveal_strlit("--add");
}

/// Plain words remove and add nothing.
proof fn lemma_all_plain(args: Seq<Seq<char>>, name: Seq<char>)
    requires
        all_plain(args),
    ensures
        is_finished(args),
        !removes(args, name),
        !adds(args, name),
{
}

/// What arguments remove and add is what their parts do.
proof fn lemma_parts(a: Seq<Seq<char>>, b: Seq<Seq<char>>, name: Seq<char>)
    requires
        is_finished(a),
    ensures
        is_finished(b) ==> is_finished(a + b),
        removes(a + b, name) <==> removes(a, name) || removes(b, name),
        adds(a + b, name) <==> adds(a, name) || adds(b, name),
{
    let all = a + b;
    let n = a.len() as int;
    assert(forall|p: int| 0 <= p < n ==> all[p] == a[p]);
    assert(forall|p: int| 0 <= p < b.len() ==> all[n + p] == #[trigger] b[p]);
    if removes(a, name) {
        let p = choose|p: int|
            0 <= p && p + 1 < a.len() && #[trigger] a[p] == "--remove"@ && a[p + 1] == name;
        assert(all[p] == "--remove"@ && all[p + 1] == name);
    }
    if removes(b, name) {
        let p = choose|p: int|
            0 <= p && p + 1 < b.len() && #[trigger] b[p] == "--remove"@ && b[p + 1] == name;
        assert(all[n + p] == "--remove"@ && all[n + p + 1] == b[p + 1]);
    }
    if removes(all, name) {
        let p = choose|p: int|
            0 <= p && p + 1 < all.len() && #[trigger] all[p] == "--remove"@ && all[p + 1] == name;
        if p + 1 < n {
            assert(a[p] == "--remove"@ && a[p + 1] == name);
        } else if p >= n {
            assert(b[p - n] == "--remove"@ && b[p - n + 1] == name);
        }
    }
    if adds(a, name) {
        let p = choose|p: int|
            0 <= p && p + 2 < a.len() && #[trigger] a[p] == "--add"@ && a[p + 2] == name;
        assert(all[p] == "--add"@ && all[p + 2] == name);
    }
    if adds(b, name) {
        let p = choose|p: int|
            0 <= p && p + 2 < b.len() && #[trigger] b[p] == "--add"@ && b[p + 2] == name;
        assert(all[n + p] == "--add"@ && all[n + p + 2] == b[p + 2]);
    }
    if adds(all, name) {
        let p = choose|p: int|
            0 <= p && p + 2 < all.len() && #[trigger] all[p] == "--add"@ && all[p + 2] == name;
        if p + 2 < n {
            assert(a[p] == "--add"@ && a[p + 2] == name);
        } else if p >= n {
            assert(b[p - n] == "--add"@ && b[p - n + 2] == name);
        }
    }
}

/// The names of items neither remove nor add.
proof fn lemma_names_plain(sid: nat, idx: nat)
    ensures
        is_plain(space_name(sid)),
        is_plain(item_name(sid, idx)),
        is_plain(bracket_name(sid)),
{
    reveal_strlit("space.");
    reveal_strlit("ws");
    lemma_plain(space_name(sid));
    lemma_plain(item_name(sid, idx));
    lemma_plain(bracket_name(sid));
}

/// The words that take values neither remove nor add.
proof fn lemma_set_plain()
    ensures
        is_plain("--set"@),
        is_plain("--move"@),
        "--add"@ != "--remove"@,
{
    reveal_strlit("--set");
    reveal_strlit("--move");
    reveal_strlit("--add");
    reveal_strlit("--remove");
    assert("--set"@[2] == 's');
    assert("--move"@[2] == 'm');
    assert("--add"@[2] == 'a');
    assert("--remove"@[2] == 'r');
}

/// How a workspace's own item is set removes and adds nothing.
proof fn lemma_head(sid: nat, focused: bool)
    ensures
        all_plain(head_args(sid, focused)),
{
    let args = head_args(sid, focused);
    lemma_set_plain();
    lemma_names_plain(sid, 0);
    reveal_strlit("label=");
    reveal_strlit("icon.highlight=");
    reveal_strlit("label.highlight=");
    reveal_strlit("background.drawing=off");
    reveal_strlit("icon.padding_right=5");
    reveal_strlit("label.padding_left=0");
    reveal_strlit("label.padding_right=0");
    assert forall|p: int| 0 <= p < args.len() implies is_plain(#[trigger] args[p]) by {
        if p >= 2 {
            lemma_plain(args[p]);
        }
    }
}

/// What is said of the monitor of a workspace removes and adds nothing.
proof fn lemma_display(monitor_count: nat, monitors: Seq<char>, space: Seq<char>)
    ensures
        all_plain(display_args(monitor_count, monitors, space)),
{
    let args = display_args(monitor_count, monitors, space);
    reveal_strlit("associated_display=");
    reveal_strlit("associated_display=1");
    assert forall|p: int| 0 <= p < args.len() implies is_plain(#[trigger] args[p]) by {
        lemma_plain(args[p]);
    }
}

/// What is said of a group adds its item, and removes nothing.
proof fn lemma_group(sid: nat, idx: nat, group: Group, display: Seq<Seq<char>>, name: Seq<char>)
    requires
        all_plain(display),
    ensures
        is_finished(group_args(sid, idx, group, display)),
        !removes(group_args(sid, idx, group, display), name),
        adds(group_args(sid, idx, group, display), name) <==> name == item_name(sid, idx),
{
    let item = item_name(sid, idx);
    lemma_set_plain();
    lemma_names_plain(sid, idx);
    if idx > 0 {
        lemma_names_plain(sid, (idx - 1) as nat);
    }
    let label = label_args(item, group);
    assert forall|p: int| 1 <= p < label.len() implies is_plain(#[trigger] label[p]) by {
        reveal_strlit("item");
        reveal_strlit("left");
        reveal_strlit("label=");
        reveal_strlit("label.color=");
        reveal_strlit("label.font=sketchybar-app-font:Regular:13.0");
        reveal_strlit("label.y_offset=0");
        reveal_strlit("icon.drawing=off");
        reveal_strlit("label.padding_left=4");
        reveal_strlit("label.padding_right=4");
        if p != 2 && p != 4 && p != 5 {
            lemma_plain(label[p]);
        }
    }
    let pill = pill_args(group.is_accordion);
    assert forall|p: int| 0 <= p < pill.len() implies is_plain(#[trigger] pill[p]) by {
        reveal_strlit("background.drawing=on");
        reveal_strlit("background.drawing=off");
        reveal_strlit("background.color=0xff45475a");
        reveal_strlit("background.corner_radius=8");
        reveal_strlit("background.border_width=0");
        reveal_strlit("background.height=26");
        reveal_strlit("background.padding_left=2");
        reveal_strlit("background.padding_right=2");
        lemma_plain(pill[p]);
    }
    let placing = move_args(item, item_before(sid, idx));
    assert forall|p: int| 0 <= p < placing.len() implies is_plain(#[trigger] placing[p]) by {
        reveal_strlit("after");
        if p == 2 {
            lemma_plain(placing[p]);
        }
    }
    assert(label[0] == "--add"@ && label[2] == item);
    assert(adds(label, item));
    if adds(label, name) {
        let p = choose|p: int|
            0 <= p && p + 2 < label.len() && #[trigger] label[p] == "--add"@ && label[p + 2]
                == name;
        assert(p == 0);
    }
    assert(is_finished(label));
    lemma_all_plain(pill, name);
    lemma_all_plain(display, name);
    lemma_all_plain(placing, name);
    lemma_parts(label, pill, name);
    lemma_parts(label + pill, display, name);
    lemma_parts(label + pill + display, placing, name);
}

/// What is said of the first `n` groups adds their items, and removes nothing.
proof fn lemma_groups(sid: nat, n: nat, look: Look, name: Seq<char>)
    requires
        all_plain(look.display),
    ensures
        is_finished(groups_args(sid, n, look)),
        !removes(groups_args(sid, n, look), name),
        adds(groups_args(sid, n, look), name) <==> item_names(sid, n).contains(name),
    decreases n,
{
    if n == 0 {
        lemma_all_plain(groups_args(sid, n, look), name);
    } else {
        let m = (n - 1) as nat;
        lemma_groups(sid, m, look, name);
        lemma_group(sid, m, look.groups[n - 1], look.display, name);
        lemma_parts(
            groups_args(sid, m, look),
            group_args(sid, m, look.groups[n - 1], look.display),
            name,
        );
        assert(item_names(sid, n) == item_names(sid, m).push(item_name(sid, m)));
        assert(item_names(sid, n).contains(name) <==> item_names(sid, m).contains(name) || name
            == item_name(sid, m)) by {
            let list = item_names(sid, n);
            if item_names(sid, m).contains(name) {
                let i = choose|i: int|
                    0 <= i < item_names(sid, m).len() && item_names(sid, m)[i] == name;
                assert(list[i] == name);
            }
            if name == item_name(sid, m) {
                assert(list[n - 1] == name);
            }
            if list.contains(name) {
                let i = choose|i: int| 0 <= i < list.len() && list[i] == name;
                if i < m {
                    assert(item_names(sid, m)[i] == name);
                }
            }
        }
    }
}

/// How the background of a workspace is drawn adds its bracket, or removes it where there are no
/// groups.
proof fn lemma_tail(sid: nat, look: Look, name: Seq<char>)
    ensures
        is_finished(tail_args(sid, look)),
        removes(tail_args(sid, look), name) <==> look.groups.len() == 0 && name == bracket_name(
            sid,
        ),
        adds(tail_args(sid, look), name) <==> look.groups.len() > 0 && name == bracket_name(sid),
{
    let args = tail_args(sid, look);
    let bracket = bracket_name(sid);
    lemma_set_plain();
    lemma_names_plain(sid, 0);
    reveal_strlit("background.color=");
    reveal_strlit("background.border_color=");
    reveal_strlit("background.border_width=");
    reveal_strlit("background.corner_radius=8");
    reveal_strlit("background.height=26");
    reveal_strlit("background.drawing=on");
    reveal_strlit("bracket");
    if look.groups.len() > 0 {
        let n = look.groups.len();
        let start = seq!["--add"@, "bracket"@, bracket, space_name(sid)];
        let names = item_names(sid, n);
        let end = args.skip((4 + n) as int);
        assert(args == start + names + end);
        assert(start[0] == "--add"@ && start[2] == bracket);
        lemma_plain("bracket"@);
        if adds(start, name) {
            let p = choose|p: int|
                0 <= p && p + 2 < start.len() && #[trigger] start[p] == "--add"@ && start[p + 2]
                    == name;
            assert(p == 0);
        }
        assert(adds(start, bracket));
        assert(!removes(start, name));
        assert forall|p: int| 0 <= p < names.len() implies is_plain(#[trigger] names[p]) by {
            lemma_names_plain(sid, p as nat);
        }
        assert(end[0] == "--set"@ && end[1] == bracket);
        assert forall|p: int| 0 <= p < end.len() implies is_plain(#[trigger] end[p]) by {
            if p >= 2 {
                lemma_plain(end[p]);
            }
        }
        lemma_all_plain(names, name);
        lemma_all_plain(end, name);
        lemma_parts(start, names, name);
        lemma_parts(start + names, end, name);
    } else {
        assert(args[6] == "--remove"@ && args[7] == bracket);
        assert forall|p: int| 0 <= p < args.len() && p != 6 implies is_plain(
            #[trigger] args[p],
        ) by {
            if 2 <= p < 6 {
                lemma_plain(args[p]);
            }
        }
    }
}

/// Whether `name` is the bracket of workspace `sid`, and the workspace has no groups.
pub open spec fn is_bracket_of_empty(
    sid: nat,
    focused_workspace: Seq<char>,
    icons: Map<Seq<char>, Seq<char>>,
    replies: Replies,
    name: Seq<char>,
) -> bool {
    &&& look_of(sid, focused_workspace, icons, replies).groups.len() == 0
    &&& name == bracket_name(sid)
}

/// Whether `name` is the item of one of the groups of workspace `sid`, or the bracket around them.
pub open spec fn is_drawn(
    sid: nat,
    focused_workspace: Seq<char>,
    icons: Map<Seq<char>, Seq<char>>,
    replies: Replies,
    name: Seq<char>,
) -> bool {
    let n = look_of(sid, focused_workspace, icons, replies).groups.len();
    item_names(sid, n).contains(name) || (n > 0 && name == bracket_name(sid))
}

/// What is said of a workspace adds the items of its groups and its bracket; without groups it
/// removes the bracket.
proof fn lemma_space(
    sid: nat,
    focused_workspace: Seq<char>,
    icons: Map<Seq<char>, Seq<char>>,
    replies: Replies,
    name: Seq<char>,
)
    ensures
        is_finished(space_args(sid, look_of(sid, focused_workspace, icons, replies))),
        removes(space_args(sid, look_of(sid, focused_workspace, icons, replies)), name)
            <==> is_bracket_of_empty(sid, focused_workspace, icons, replies, name),
        adds(space_args(sid, look_of(sid, focused_workspace, icons, replies)), name)
            <==> is_drawn(sid, focused_workspace, icons, replies, name),
{
    let look = look_of(sid, focused_workspace, icons, replies);
    let head = head_args(sid, look.focused);
    let groups = groups_args(sid, look.groups.len(), look);
    lemma_head(sid, look.focused);
    lemma_display(monitors_counted(replies.monitor_count), replies.monitors, decimal(sid));
    lemma_all_plain(head, name);
    lemma_all_plain(look.display, name);
    lemma_groups(sid, look.groups.len(), look, name);
    lemma_tail(sid, look, name);
    lemma_parts(head, look.display, name);
    lemma_parts(head + look.display, groups, name);
    lemma_parts(head + look.display + groups, tail_args(sid, look), name);
}

/// What is said of the workspaces up to `n` adds and removes what the words on each of them do.
proof fn lemma_spaces(
    n: nat,
    focused_workspace: Seq<char>,
    icons: Map<Seq<char>, Seq<char>>,
    replies: Replies,
    name: Seq<char>,
)
    ensures
        is_finished(spaces_args(n, focused_workspace, icons, replies)),
        removes(spaces_args(n, focused_workspace, icons, replies), name) <==> exists|sid: nat|
            1 <= sid <= n && #[trigger] is_bracket_of_empty(
                sid,
                focused_workspace,
                icons,
                replies,
                name,
            ),
        adds(spaces_args(n, focused_workspace, icons, replies), name) <==> exists|sid: nat|
            1 <= sid <= n && #[trigger] is_drawn(sid, focused_workspace, icons, replies, name),
    decreases n,
{
    if n == 0 {
        lemma_all_plain(spaces_args(n, focused_workspace, icons, replies), name);
    } else {
        let m = (n - 1) as nat;
        lemma_spaces(m, focused_workspace, icons, replies, name);
        lemma_space(n, focused_workspace, icons, replies, name);
        lemma_parts(
            spaces_args(m, focused_workspace, icons, replies),
            space_args(n, look_of(n, focused_workspace, icons, replies)),
            name,
        );
    }
}

/// Removals remove what they name.
proof fn lemma_removals(args: Seq<Seq<char>>, name: Seq<char>)
    requires
        all_removals(args),
    ensures
        removes(args, name) <==> is_removed(args, name),
{
    if is_removed(args, name) {
        let p = choose|p: int|
            0 <= p && 2 * p + 1 < args.len() && #[trigger] removal_at(args, p) == name;
        assert(flag_at(args, p) == "--remove"@);
        assert(args[2 * p] == "--remove"@);
    }
    if removes(args, name) {
        let p = choose|p: int|
            0 <= p && p + 1 < args.len() && #[trigger] args[p] == "--remove"@ && args[p + 1]
                == name;
        if p % 2 == 0 {
            assert(removal_at(args, p / 2) == name);
        } else {
            assert(flag_at(args, (p + 1) / 2) == "--remove"@);
            assert(removal_at(args, p / 2) == name);
        }
    }
}

/// An update removes just the items of the earlier one that it does not have itself, and the
/// brackets of workspaces without groups, in all that it says.
pub proof fn law_what_is_removed(
    focused_workspace: Seq<char>,
    icons: Map<Seq<char>, Seq<char>>,
    earlier: Seq<Space>,
    replies: Replies,
    name: Seq<char>,
)
    ensures
        removes(bar_args(focused_workspace, icons, earlier, replies), name) <==> is_stale(
            earlier,
            bar_items(focused_workspace, icons, replies),
            name,
        ) || exists|sid: nat|
            1 <= sid <= SPACES && #[trigger] is_bracket_of_empty(
                sid,
                focused_workspace,
                icons,
                replies,
                name,
            ),
{
    let items = bar_items(focused_workspace, icons, replies);
    let gone = removals(earlier, items);
    lemma_spaces(SPACES as nat, focused_workspace, icons, replies, name);
    law_stale_items_removed(earlier, items, name);
    lemma_removals(gone, name);
    lemma_parts(spaces_args(SPACES as nat, focused_workspace, icons, replies), gone, name);
}

/// An update adds just the items of groups and the brackets around them, in all that it says,
/// provided that no item that it removes is called as the word is that adds one.
pub proof fn law_what_is_added(
    focused_workspace: Seq<char>,
    icons: Map<Seq<char>, Seq<char>>,
    earlier: Seq<Space>,
    replies: Replies,
    name: Seq<char>,
)
    requires
        !is_stale(earlier, bar_items(focused_workspace, icons, replies), "--add"@),
    ensures
        adds(bar_args(focused_workspace, icons, earlier, replies), name) <==> exists|sid: nat|
            1 <= sid <= SPACES && #[trigger] is_drawn(
                sid,
                focused_workspace,
                icons,
                replies,
                name,
            ),
{
    let items = bar_items(focused_workspace, icons, replies);
    let gone = removals(earlier, items);
    lemma_spaces(SPACES as nat, focused_workspace, icons, replies, name);
    law_stale_items_removed(earlier, items, "--add"@);
    lemma_set_plain();
    if adds(gone, name) {
        let p = choose|p: int|
            0 <= p && p + 2 < gone.len() && #[trigger] gone[p] == "--add"@ && gone[p + 2] == name;
        if p % 2 == 0 {
            assert(flag_at(gone, p / 2) == "--remove"@);
        } else {
            assert(removal_at(gone, p / 2) == "--add"@);
        }
    }
    lemma_parts(spaces_args(SPACES as nat, focused_workspace, icons, replies), gone, name);
}

/// Whether items are those that an update left, or none, as before the first.
pub open spec fn left_by_update(items: Seq<Space>) -> bool {
    items.len() == 0 || exists|
        focused_workspace: Seq<char>,
        icons: Map<Seq<char>, Seq<char>>,
        replies: Replies,
    |
        items == #[trigger] bar_items(focused_workspace, icons, replies)
}

/// No update removes what it adds.
pub proof fn law_nothing_added_is_removed(
    focused_workspace: Seq<char>,
    icons: Map<Seq<char>, Seq<char>>,
    earlier: Seq<Space>,
    replies: Replies,
    name: Seq<char>,
)
    requires
        left_by_update(earlier),
    ensures
        !(adds(bar_args(focused_workspace, icons, earlier, replies), name) && removes(
            bar_args(focused_workspace, icons, earlier, replies),
            name,
        )),
{
    let items = bar_items(focused_workspace, icons, replies);
    lemma_earlier_names_plain(earlier, items);
    law_what_is_removed(focused_workspace, icons, earlier, replies, name);
    law_what_is_added(focused_workspace, icons, earlier, replies, name);
    if exists|sid: nat|
        1 <= sid <= SPACES && #[trigger] is_drawn(sid, focused_workspace, icons, replies, name) {
        let sid = choose|sid: nat|
            1 <= sid <= SPACES && #[trigger] is_drawn(
                sid,
                focused_workspace,
                icons,
                replies,
                name,
            );
        let list = item_names(sid, look_of(sid, focused_workspace, icons, replies).groups.len());
        if list.contains(name) {
            let idx = choose|i: int| 0 <= i < list.len() && list[i] == name;
            assert(name == item_name(sid, idx as nat));
            lemma_drawn_not_stale(focused_workspace, icons, earlier, replies, sid, idx as nat);
            assert forall|other: nat| !(#[trigger] is_bracket_of_empty(
                other,
                focused_workspace,
                icons,
                replies,
                name,
            )) by {
                law_kinds_of_names_distinct(sid, idx as nat, other);
            }
        } else {
            lemma_drawn_not_stale(focused_workspace, icons, earlier, replies, sid, 0);
            assert forall|other: nat| !(#[trigger] is_bracket_of_empty(
                other,
                focused_workspace,
                icons,
                replies,
                name,
            )) by {
                if bracket_name(sid) == bracket_name(other) {
                    law_brackets_distinct(sid, other);
                }
            }
        }
    }
}

/// The items of the groups that a workspace has, and its bracket, are not among those of an
/// earlier update to be removed.
proof fn lemma_drawn_not_stale(
    focused_workspace: Seq<char>,
    icons: Map<Seq<char>, Seq<char>>,
    earlier: Seq<Space>,
    replies: Replies,
    sid: nat,
    idx: nat,
)
    requires
        left_by_update(earlier),
        1 <= sid <= SPACES,
    ensures
        idx < look_of(sid, focused_workspace, icons, replies).groups.len() ==> !is_stale(
            earlier,
            bar_items(focused_workspace, icons, replies),
            item_name(sid, idx),
        ),
        !is_stale(earlier, bar_items(focused_workspace, icons, replies), bracket_name(sid)),
{
    let items = bar_items(focused_workspace, icons, replies);
    if earlier.len() > 0 {
        let (focused_before, icons_before, before) = choose|
            f: Seq<char>,
            i: Map<Seq<char>, Seq<char>>,
            r: Replies,
        |
            earlier == #[trigger] bar_items(f, i, r);
        law_surplus_items_removed(
            focused_before,
            icons_before,
            before,
            focused_workspace,
            icons,
            replies,
            sid,
            idx,
        );
        law_stale_items_removed(earlier, items, item_name(sid, idx));
        law_stale_items_removed(earlier, items, bracket_name(sid));
    }
}

/// No item that an update left is called as the word is that adds one.
proof fn lemma_earlier_names_plain(earlier: Seq<Space>, items: Seq<Space>)
    requires
        left_by_update(earlier),
    ensures
        !is_stale(earlier, items, "--add"@),
{
    if earlier.len() > 0 {
        let (f, i, r) = choose|f: Seq<char>, i: Map<Seq<char>, Seq<char>>, r: Replies|
            earlier == #[trigger] bar_items(f, i, r);
        assert forall|k: int| 0 <= k < earlier.len() implies !(
        #[trigger] earlier[k]).names.contains("--add"@) by {
            let sid = (k + 1) as nat;
            let n = look_of(sid, f, i, r).groups.len();
            let names = item_names(sid, n).push(bracket_name(sid));
            assert(earlier[k].names == names);
            assert forall|p: int| 0 <= p < names.len() implies names[p] != "--add"@ by {
                lemma_names_plain(sid, p as nat);
            }
        }
    }
}

} // verus!
