//! What holds of every update of the bar, and of one update after another.

use vstd::prelude::*;

use crate::bar::{
    bar_args, bar_items, bracket_name, group_args, groups_args, head_args, item_name, item_names,
    look_of, name_removals, names_floating, names_of, removals, space_args, space_name, spaces_args,
    tail_args, Look, Replies, SPACES,
};
use crate::number::{decimal, is_digit, law_decimal_injective, lemma_decimal_digits};
use crate::state::{spaces_differ, Space};
use crate::text::{
    is_space, joined, law_joined_cut_again, law_trimmed, lines_of, trimmed, without_cr,
};

verus! {

/// What stands before and after the first point is found again.
proof fn lemma_at_point(a: Seq<char>, x: Seq<char>, b: Seq<char>, y: Seq<char>)
    requires
        a + seq!['.'] + x == b + seq!['.'] + y,
        !a.contains('.'),
        !b.contains('.'),
    ensures
        a == b,
        x == y,
{
    let whole = a + seq!['.'] + x;
    assert(whole[a.len() as int] == '.');
    assert(whole[b.len() as int] == '.') by {
        assert((b + seq!['.'] + y)[b.len() as int] == '.');
    }
    if a.len() < b.len() {
        assert(b[a.len() as int] == '.') by {
            assert((b + seq!['.'] + y)[a.len() as int] == b[a.len() as int]);
        }
        assert(b.contains('.'));
    }
    if b.len() < a.len() {
        assert(a[b.len() as int] == '.') by {
            assert(whole[b.len() as int] == a[b.len() as int]);
        }
        assert(a.contains('.'));
    }
    assert(a == whole.take(a.len() as int));
    assert(b == whole.take(a.len() as int));
    assert(x == whole.skip((a.len() + 1) as int));
    assert(y == whole.skip((a.len() + 1) as int));
}

/// Decimal notation holds no point.
proof fn lemma_no_point(start: Seq<char>, n: nat)
    requires
        start == "ws"@,
    ensures
        !(start + decimal(n)).contains('.'),
{
    reveal_strlit("ws");
    lemma_decimal_digits(n);
    let s = start + decimal(n);
    assert forall|k: int| 0 <= k < s.len() implies s[k] != '.' by {
        if k >= 2 {
            assert(s[k] == decimal(n)[k - 2]);
            assert(is_digit(decimal(n)[k - 2]));
        }
    }
}

/// A name after `ws` and a number is found again behind its point.
proof fn lemma_same_space(one: nat, x: Seq<char>, other: nat, y: Seq<char>)
    requires
        "ws"@ + decimal(one) + seq!['.'] + x == "ws"@ + decimal(other) + seq!['.'] + y,
    ensures
        one == other,
        x == y,
{
    lemma_no_point("ws"@, one);
    lemma_no_point("ws"@, other);
    lemma_at_point("ws"@ + decimal(one), x, "ws"@ + decimal(other), y);
    assert(decimal(one) == ("ws"@ + decimal(one)).skip("ws"@.len() as int));
    assert(decimal(other) == ("ws"@ + decimal(other)).skip("ws"@.len() as int));
    law_decimal_injective(one, other);
}

/// Two groups, on one workspace or on two, never share an item.
pub proof fn law_items_distinct(sid: nat, idx: nat, other_sid: nat, other_idx: nat)
    requires
        item_name(sid, idx) == item_name(other_sid, other_idx),
    ensures
        sid == other_sid,
        idx == other_idx,
{
    reveal_strlit(".g");
    let x = seq!['g'] + decimal(idx);
    let y = seq!['g'] + decimal(other_idx);
    assert(item_name(sid, idx) == "ws"@ + decimal(sid) + seq!['.'] + x);
    assert(item_name(other_sid, other_idx) == "ws"@ + decimal(other_sid) + seq!['.'] + y);
    lemma_same_space(sid, x, other_sid, y);
    assert(decimal(idx) == x.skip(1));
    assert(decimal(other_idx) == y.skip(1));
    law_decimal_injective(idx, other_idx);
}

/// Two workspaces never share a bracket.
pub proof fn law_brackets_distinct(sid: nat, other_sid: nat)
    requires
        bracket_name(sid) == bracket_name(other_sid),
    ensures
        sid == other_sid,
{
    reveal_strlit(".bracket");
    let x = ".bracket"@.skip(1);
    assert(bracket_name(sid) == "ws"@ + decimal(sid) + seq!['.'] + x);
    assert(bracket_name(other_sid) == "ws"@ + decimal(other_sid) + seq!['.'] + x);
    lemma_same_space(sid, x, other_sid, x);
}

/// The item of a group is never a bracket, and neither of them is a workspace's own item.
pub proof fn law_kinds_of_names_distinct(sid: nat, idx: nat, other_sid: nat)
    ensures
        item_name(sid, idx) != bracket_name(other_sid),
        item_name(sid, idx) != space_name(other_sid),
        bracket_name(sid) != space_name(other_sid),
{
    reveal_strlit("ws");
    reveal_strlit("space.");
    reveal_strlit(".g");
    reveal_strlit(".bracket");
    assert(item_name(sid, idx)[0] == 'w');
    assert(bracket_name(sid)[0] == 'w');
    assert(space_name(other_sid)[0] == 's');
    if item_name(sid, idx) == bracket_name(other_sid) {
        let x = seq!['g'] + decimal(idx);
        let y = ".bracket"@.skip(1);
        assert(item_name(sid, idx) == "ws"@ + decimal(sid) + seq!['.'] + x);
        assert(bracket_name(other_sid) == "ws"@ + decimal(other_sid) + seq!['.'] + y);
        lemma_same_space(sid, x, other_sid, y);
        assert(x[0] == 'g');
        assert(y[0] == 'b');
    }
}

/// At most one workspace has the focus on the bar.
pub proof fn law_one_focus(
    sid: nat,
    other_sid: nat,
    focused_workspace: Seq<char>,
    icons: Map<Seq<char>, Seq<char>>,
    replies: Replies,
)
    requires
        look_of(sid, focused_workspace, icons, replies).focused,
        look_of(other_sid, focused_workspace, icons, replies).focused,
    ensures
        sid == other_sid,
{
    law_decimal_injective(sid, other_sid);
}

/// Whether `part` is said, without a break, in the course of `args`.
pub open spec fn says(args: Seq<Seq<char>>, part: Seq<Seq<char>>) -> bool {
    exists|p: int|
        0 <= p && p + part.len() <= args.len() && #[trigger] args.subrange(p, p + part.len())
            == part
}

/// What is said in part of an update is said in the whole.
pub proof fn lemma_says_inside(
    before: Seq<Seq<char>>,
    middle: Seq<Seq<char>>,
    after: Seq<Seq<char>>,
    part: Seq<Seq<char>>,
)
    requires
        says(middle, part),
    ensures
        says(before + middle + after, part),
{
    let p = choose|p: int|
        0 <= p && p + part.len() <= middle.len() && #[trigger] middle.subrange(p, p + part.len())
            == part;
    let whole = before + middle + after;
    let q = before.len() + p;
    assert(whole.subrange(q, q + part.len()) == middle.subrange(p, p + part.len()));
}

/// The words on each of the first `n` groups are among those on all of them.
proof fn lemma_group_said(sid: nat, n: nat, idx: nat, look: Look)
    requires
        idx < n,
    ensures
        says(
            groups_args(sid, n, look),
            group_args(sid, idx, look.groups[idx as int], look.display),
        ),
    decreases n,
{
    let before = groups_args(sid, (n - 1) as nat, look);
    let last = group_args(sid, (n - 1) as nat, look.groups[n - 1], look.display);
    let none = Seq::<Seq<char>>::empty();
    if idx == n - 1 {
        assert(last.subrange(0, 0 + last.len() as int) == last);
        lemma_says_inside(before, last, none, last);
        assert(before + last + none == before + last);
    } else {
        lemma_group_said(sid, (n - 1) as nat, idx, look);
        let part = group_args(sid, idx, look.groups[idx as int], look.display);
        lemma_says_inside(none, before, last, part);
        assert(none + before + last == before + last);
    }
}

/// The words on each of the workspaces up to `n` are among those on all of them.
pub proof fn lemma_space_said(
    n: nat,
    sid: nat,
    focused_workspace: Seq<char>,
    icons: Map<Seq<char>, Seq<char>>,
    replies: Replies,
    part: Seq<Seq<char>>,
)
    requires
        1 <= sid <= n,
        says(space_args(sid, look_of(sid, focused_workspace, icons, replies)), part),
    ensures
        says(spaces_args(n, focused_workspace, icons, replies), part),
    decreases n,
{
    let before = spaces_args((n - 1) as nat, focused_workspace, icons, replies);
    let last = space_args(n, look_of(n, focused_workspace, icons, replies));
    let none = Seq::<Seq<char>>::empty();
    if sid == n {
        lemma_says_inside(before, last, none, part);
        assert(before + last + none == before + last);
    } else {
        lemma_space_said((n - 1) as nat, sid, focused_workspace, icons, replies, part);
        lemma_says_inside(none, before, last, part);
        assert(none + before + last == before + last);
    }
}

/// An update adds, sets and places the item of each group of each workspace, whatever else it has
/// to say.
pub proof fn law_every_item_drawn(
    sid: nat,
    idx: nat,
    focused_workspace: Seq<char>,
    icons: Map<Seq<char>, Seq<char>>,
    earlier: Seq<Space>,
    replies: Replies,
)
    requires
        1 <= sid <= SPACES,
        idx < look_of(sid, focused_workspace, icons, replies).groups.len(),
    ensures
        says(
            bar_args(focused_workspace, icons, earlier, replies),
            group_args(
                sid,
                idx,
                look_of(sid, focused_workspace, icons, replies).groups[idx as int],
                look_of(sid, focused_workspace, icons, replies).display,
            ),
        ),
{
    let look = look_of(sid, focused_workspace, icons, replies);
    let part = group_args(sid, idx, look.groups[idx as int], look.display);
    let none = Seq::<Seq<char>>::empty();
    lemma_group_said(sid, look.groups.len(), idx, look);
    lemma_says_inside(
        head_args(sid, look.focused) + look.display,
        groups_args(sid, look.groups.len(), look),
        tail_args(sid, look),
        part,
    );
    lemma_space_said(SPACES as nat, sid, focused_workspace, icons, replies, part);
    let said = spaces_args(SPACES as nat, focused_workspace, icons, replies);
    let gone = removals(earlier, bar_items(focused_workspace, icons, replies));
    lemma_says_inside(none, said, gone, part);
    assert(none + said + gone == said + gone);
}

/// Whether a list has the workspaces from `first` on, by their numbers.
spec fn numbered_from(items: Seq<Space>, first: nat) -> bool {
    forall|i: int|
        0 <= i < items.len() ==> (#[trigger] items[i]).space == decimal((first + i) as nat)
}

/// The items of a workspace are found under its number.
proof fn lemma_names_found(items: Seq<Space>, first: nat, k: int)
    requires
        numbered_from(items, first),
        0 <= k < items.len(),
    ensures
        names_of(items, decimal((first + k) as nat)) == items[k].names,
    decreases k,
{
    if k > 0 {
        assert(items[0].space == decimal((first + 0) as nat));
        if decimal(first) == decimal((first + k) as nat) {
            law_decimal_injective(first, (first + k) as nat);
        }
        let rest = items.skip(1);
        assert forall|i: int| 0 <= i < rest.len() implies (#[trigger] rest[i]).space == decimal(
            (first + 1 + i) as nat,
        ) by {
            assert(rest[i] == items[i + 1]);
        }
        lemma_names_found(rest, first + 1, k - 1);
        assert(rest[k - 1] == items[k]);
    } else {
        assert(items[0].space == decimal((first + 0) as nat));
    }
}

/// An update has items of no workspace twice.
pub proof fn law_spaces_differ(
    focused_workspace: Seq<char>,
    icons: Map<Seq<char>, Seq<char>>,
    replies: Replies,
)
    ensures
        spaces_differ(bar_items(focused_workspace, icons, replies)),
{
    let items = bar_items(focused_workspace, icons, replies);
    assert forall|i: int, j: int| 0 <= i < j < items.len() implies (#[trigger] items[i]).space != (
    #[trigger] items[j]).space by {
        if items[i].space == items[j].space {
            law_decimal_injective((i + 1) as nat, (j + 1) as nat);
        }
    }
}

/// After an update the items remembered of each workspace are those of its groups, and its
/// bracket.
pub proof fn law_items_remembered(
    sid: nat,
    focused_workspace: Seq<char>,
    icons: Map<Seq<char>, Seq<char>>,
    replies: Replies,
)
    requires
        1 <= sid <= SPACES,
    ensures
        names_of(bar_items(focused_workspace, icons, replies), decimal(sid)) == item_names(
            sid,
            look_of(sid, focused_workspace, icons, replies).groups.len(),
        ).push(bracket_name(sid)),
{
    let items = bar_items(focused_workspace, icons, replies);
    assert(numbered_from(items, 1));
    lemma_names_found(items, 1, sid - 1);
}

/// In a file with one name on each line, each of the names is one of a workspace in floating mode,
/// and nothing else is, provided that no name is blank, broken or has white space around it.
pub proof fn law_floating_names_read(names: Seq<Seq<char>>, space: Seq<char>)
    requires
        forall|i: int|
            0 <= i < names.len() ==> (#[trigger] names[i]).len() > 0 && !names[i].contains('\n')
                && trimmed(names[i]) == names[i],
    ensures
        names_floating(
            Some(joined(names.push(Seq::empty()), seq!['\n'])),
            space,
        ) <==> names.contains(space),
{
    let list = names.push(Seq::empty());
    let file = joined(list, seq!['\n']);
    assert forall|i: int| 0 <= i < list.len() implies !(#[trigger] list[i]).contains('\n') by {
        if i < names.len() {
            assert(list[i] == names[i]);
        }
    }
    law_joined_cut_again(list, '\n');
    let all = lines_of(file);
    assert(list.drop_last() == names);
    assert forall|i: int| 0 <= i < names.len() implies #[trigger] all[i] == names[i] by {
        law_trimmed(names[i]);
        assert(!is_space(names[i].last()));
        assert(all[i] == without_cr(list.drop_last()[i]));
    }
    assert(all.len() == names.len());
    if names.contains(space) {
        let i = choose|i: int| 0 <= i < names.len() && names[i] == space;
        assert(all[i] == names[i]);
        let content = Some(file);
        assert(trimmed(lines_of(content->0)[i]) == space);
    }
    if names_floating(Some(file), space) {
        let i = choose|i: int|
            0 <= i < lines_of(file).len() && trimmed(#[trigger] lines_of(file)[i]) == space;
        assert(all[i] == names[i]);
        assert(names[i] == space);
        assert(names.contains(space));
    }
}

/// The word that the `p`th pair of arguments begins with.
pub open spec fn flag_at(args: Seq<Seq<char>>, p: int) -> Seq<char> {
    args[2 * p]
}

/// The name that the `p`th removal gives.
pub open spec fn removal_at(args: Seq<Seq<char>>, p: int) -> Seq<char> {
    args[2 * p + 1]
}

/// Whether arguments that come in pairs remove `name`.
pub open spec fn is_removed(args: Seq<Seq<char>>, name: Seq<char>) -> bool {
    exists|p: int| 0 <= p && 2 * p + 1 < args.len() && #[trigger] removal_at(args, p) == name
}

/// Whether arguments are removals, one pair for each.
pub open spec fn all_removals(args: Seq<Seq<char>>) -> bool {
    &&& args.len() % 2 == 0
    &&& forall|p: int|
        0 <= p && 2 * p + 1 < args.len() ==> #[trigger] flag_at(args, p) == "--remove"@
}

/// Removals and then more removals.
proof fn lemma_more_removals(a: Seq<Seq<char>>, b: Seq<Seq<char>>, name: Seq<char>)
    requires
        all_removals(a),
        all_removals(b),
    ensures
        all_removals(a + b),
        is_removed(a + b, name) <==> is_removed(a, name) || is_removed(b, name),
{
    let all = a + b;
    let half = a.len() as int / 2;
    assert forall|p: int| 0 <= p && 2 * p + 1 < all.len() implies #[trigger] flag_at(all, p)
        == "--remove"@ by {
        if p < half {
            assert(flag_at(all, p) == flag_at(a, p));
        } else {
            assert(flag_at(all, p) == flag_at(b, p - half));
        }
    }
    if is_removed(a, name) {
        let p = choose|p: int|
            0 <= p && 2 * p + 1 < a.len() && #[trigger] removal_at(a, p) == name;
        assert(removal_at(all, p) == name);
    }
    if is_removed(b, name) {
        let p = choose|p: int|
            0 <= p && 2 * p + 1 < b.len() && #[trigger] removal_at(b, p) == name;
        assert(removal_at(all, p + half) == name);
    }
    if is_removed(all, name) {
        let p = choose|p: int|
            0 <= p && 2 * p + 1 < all.len() && #[trigger] removal_at(all, p) == name;
        if p < half {
            assert(removal_at(a, p) == name);
        } else {
            assert(removal_at(b, p - half) == name);
        }
    }
}

/// Of a list of names those are removed that are not in the other.
proof fn lemma_name_removals(names: Seq<Seq<char>>, current: Seq<Seq<char>>, name: Seq<char>)
    ensures
        all_removals(name_removals(names, current)),
        is_removed(name_removals(names, current), name) <==> names.contains(name)
            && !current.contains(name),
    decreases names.len(),
{
    let args = name_removals(names, current);
    if names.len() == 0 {
        assert(!is_removed(args, name));
    } else {
        let start = names.drop_last();
        let last = names.last();
        lemma_name_removals(start, current, name);
        assert(names.contains(name) <==> start.contains(name) || last == name) by {
            if names.contains(name) {
                let k = choose|k: int| 0 <= k < names.len() && names[k] == name;
                if k < start.len() {
                    assert(start[k] == name);
                }
            }
            if start.contains(name) {
                let k = choose|k: int| 0 <= k < start.len() && start[k] == name;
                assert(names[k] == name);
            }
            if last == name {
                assert(names[names.len() - 1] == name);
            }
        }
        if !current.contains(last) {
            let pair = seq!["--remove"@, last];
            assert(all_removals(pair));
            assert(removal_at(pair, 0) == last);
            assert(is_removed(pair, name) <==> last == name);
            lemma_more_removals(name_removals(start, current), pair, name);
        }
    }
}

/// Whether an item is one that an earlier update left on a workspace where this one has it not.
pub open spec fn is_stale(earlier: Seq<Space>, items: Seq<Space>, name: Seq<char>) -> bool {
    exists|k: int|
        0 <= k < earlier.len() && (#[trigger] earlier[k]).names.contains(name) && !names_of(
            items,
            earlier[k].space,
        ).contains(name)
}

/// An update takes away just the items of the earlier one that it does not have itself.
pub proof fn law_stale_items_removed(earlier: Seq<Space>, items: Seq<Space>, name: Seq<char>)
    ensures
        all_removals(removals(earlier, items)),
        is_removed(removals(earlier, items), name) <==> is_stale(earlier, items, name),
    decreases earlier.len(),
{
    if earlier.len() == 0 {
        assert(!is_removed(removals(earlier, items), name));
    } else {
        let start = earlier.drop_last();
        let last = earlier.last();
        law_stale_items_removed(start, items, name);
        lemma_name_removals(last.names, names_of(items, last.space), name);
        lemma_more_removals(
            removals(start, items),
            name_removals(last.names, names_of(items, last.space)),
            name,
        );
        if is_stale(start, items, name) {
            let k = choose|k: int|
                0 <= k < start.len() && (#[trigger] start[k]).names.contains(name) && !names_of(
                    items,
                    start[k].space,
                ).contains(name);
            assert(earlier[k] == start[k]);
        }
        if is_stale(earlier, items, name) {
            let k = choose|k: int|
                0 <= k < earlier.len() && (#[trigger] earlier[k]).names.contains(name)
                    && !names_of(items, earlier[k].space).contains(name);
            if k < start.len() {
                assert(start[k] == earlier[k]);
            }
        }
        if last.names.contains(name) && !names_of(items, last.space).contains(name) {
            assert(earlier[earlier.len() - 1] == last);
        }
    }
}

/// From one update to the next, the items go that a workspace has too many of: where it had more
/// groups than it has, those with the numbers that are no longer needed.
pub proof fn law_surplus_items_removed(
    focused_before: Seq<char>,
    icons_before: Map<Seq<char>, Seq<char>>,
    before: Replies,
    focused_now: Seq<char>,
    icons_now: Map<Seq<char>, Seq<char>>,
    now: Replies,
    sid: nat,
    idx: nat,
)
    requires
        1 <= sid <= SPACES,
    ensures
        is_removed(
            removals(
                bar_items(focused_before, icons_before, before),
                bar_items(focused_now, icons_now, now),
            ),
            item_name(sid, idx),
        ) <==> look_of(sid, focused_now, icons_now, now).groups.len() <= idx < look_of(
            sid,
            focused_before,
            icons_before,
            before,
        ).groups.len(),
        !is_removed(
            removals(
                bar_items(focused_before, icons_before, before),
                bar_items(focused_now, icons_now, now),
            ),
            bracket_name(sid),
        ),
{
    let earlier = bar_items(focused_before, icons_before, before);
    let items = bar_items(focused_now, icons_now, now);
    let had = look_of(sid, focused_before, icons_before, before).groups.len();
    let has = look_of(sid, focused_now, icons_now, now).groups.len();
    let item = item_name(sid, idx);
    let bracket = bracket_name(sid);
    law_stale_items_removed(earlier, items, item);
    law_stale_items_removed(earlier, items, bracket);
    law_items_remembered(sid, focused_now, icons_now, now);
    let k0 = sid - 1;
    assert(earlier[k0].space == decimal(sid));
    assert(earlier[k0].names == item_names(sid, had).push(bracket));
    lemma_item_listed(sid, had, sid, idx);
    lemma_item_listed(sid, has, sid, idx);
    lemma_bracket_listed(sid, has, sid);
    assert forall|k: int| 0 <= k < earlier.len() && k != k0 implies !(
    #[trigger] earlier[k]).names.contains(item) && !earlier[k].names.contains(bracket) by {
        let n = look_of((k + 1) as nat, focused_before, icons_before, before).groups.len();
        assert(earlier[k].names == item_names((k + 1) as nat, n).push(
            bracket_name((k + 1) as nat),
        ));
        lemma_item_listed((k + 1) as nat, n, sid, idx);
        lemma_bracket_listed((k + 1) as nat, n, sid);
    }
    if has <= idx < had {
        assert(earlier[k0].names.contains(item));
        assert(is_stale(earlier, items, item));
    }
}

/// Which items of groups a workspace's list has.
proof fn lemma_item_listed(sid: nat, n: nat, other_sid: nat, idx: nat)
    ensures
        item_names(sid, n).push(bracket_name(sid)).contains(item_name(other_sid, idx)) <==> sid
            == other_sid && idx < n,
{
    let list = item_names(sid, n).push(bracket_name(sid));
    let name = item_name(other_sid, idx);
    if sid == other_sid && idx < n {
        assert(list[idx as int] == name);
    }
    if list.contains(name) {
        let k = choose|k: int| 0 <= k < list.len() && list[k] == name;
        if k < n {
            assert(list[k] == item_name(sid, k as nat));
            law_items_distinct(sid, k as nat, other_sid, idx);
        } else {
            law_kinds_of_names_distinct(other_sid, idx, sid);
        }
    }
}

/// Which brackets a workspace's list has.
proof fn lemma_bracket_listed(sid: nat, n: nat, other_sid: nat)
    ensures
        item_names(sid, n).push(bracket_name(sid)).contains(bracket_name(other_sid)) <==> sid
            == other_sid,
{
    let list = item_names(sid, n).push(bracket_name(sid));
    let name = bracket_name(other_sid);
    if sid == other_sid {
        assert(list[n as int] == name);
    }
    if list.contains(name) {
        let k = choose|k: int| 0 <= k < list.len() && list[k] == name;
        if k < n {
            assert(list[k] == item_name(sid, k as nat));
            law_kinds_of_names_distinct(sid, k as nat, other_sid);
        } else {
            law_brackets_distinct(sid, other_sid);
        }
    }
}

/// An update that finds all as it was takes nothing away.
pub proof fn law_repeated_update_removes_nothing(
    focused_workspace: Seq<char>,
    icons: Map<Seq<char>, Seq<char>>,
    replies: Replies,
)
    ensures
        bar_args(
            focused_workspace,
            icons,
            bar_items(focused_workspace, icons, replies),
            replies,
        ) == spaces_args(SPACES as nat, focused_workspace, icons, replies),
{
    let items = bar_items(focused_workspace, icons, replies);
    let args = removals(items, items);
    assert(numbered_from(items, 1));
    assert forall|name: Seq<char>| !is_stale(items, items, name) by {
        assert forall|k: int| 0 <= k < items.len() && (#[trigger] items[k]).names.contains(
            name,
        ) implies names_of(items, items[k].space).contains(name) by {
            lemma_names_found(items, 1, k);
        }
    }
    law_stale_items_removed(items, items, removal_at(args, 0));
    if args.len() > 0 {
        assert(is_removed(args, removal_at(args, 0)));
    }
    assert(args == Seq::<Seq<char>>::empty());
    let said = spaces_args(SPACES as nat, focused_workspace, icons, replies);
    assert(said + args == said);
}

} // verus!
