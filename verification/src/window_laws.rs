//! What holds of the windows that are read, of their order, and of the items that show them.

use vstd::prelude::*;

use crate::number::{
    decimal, integer, law_decimal_read_back, law_integer_signs, lemma_decimal_digits,
};
use crate::text::{has_part, joined, law_joined_cut_again, trimmed};
use crate::text_laws::{law_found_part_stands, law_part_found};
use crate::windows::{
    accordion_group, any_focused, at_index, groups_of, groups_upto, groups_view, icons_of,
    in_container, in_tree_order, is_accordion, law_tree_order, lemma_filter_push, on_workspace,
    shown_before, single_group, tree_index_of, window_in, windows_in, windows_view, Group,
    IconGroup, Window, WindowInfo,
};

verus! {

// ---- Reading ----

/// A line of six fields describes a window just where there is an application and its bundle is
/// none of the hidden ones, wherever in their list it stands.
pub proof fn law_window_described(fields: Seq<Seq<char>>, hidden: Seq<Seq<char>>)
    requires
        fields.len() == 6,
        forall|i: int| 0 <= i < 6 ==> !(#[trigger] fields[i]).contains('|'),
    ensures
        window_in(joined(fields, seq!['|']), hidden) is None <==> trimmed(fields[1]).len() == 0
            || exists|i: int| 0 <= i < hidden.len() && #[trigger] hidden[i] == trimmed(fields[2]),
{
    law_joined_cut_again(fields, '|');
    let all = fields.map_values(|field: Seq<char>| trimmed(field));
    assert(all[1] == trimmed(fields[1]) && all[2] == trimmed(fields[2]));
}

/// The window of a hidden application is left out, whichever of the hidden ones it is.
pub proof fn law_hidden_left_out(fields: Seq<Seq<char>>, hidden: Seq<Seq<char>>, i: int)
    requires
        fields.len() == 6,
        forall|k: int| 0 <= k < 6 ==> !(#[trigger] fields[k]).contains('|'),
        0 <= i < hidden.len(),
        hidden[i] == trimmed(fields[2]),
    ensures
        window_in(joined(fields, seq!['|']), hidden) is None,
{
    law_window_described(fields, hidden);
}

/// A window that a line describes has what the line says, without the white space around it: the
/// workspace in the first field, the application in the second, the layout in the fourth, the
/// container in the fifth and the place in the tree in the sixth.
pub proof fn law_window_fields(fields: Seq<Seq<char>>, hidden: Seq<Seq<char>>)
    requires
        fields.len() == 6,
        forall|i: int| 0 <= i < 6 ==> !(#[trigger] fields[i]).contains('|'),
    ensures
        window_in(joined(fields, seq!['|']), hidden) matches Some(window) ==> {
            &&& window.workspace == trimmed(fields[0])
            &&& window.app_name == trimmed(fields[1])
            &&& window.layout == trimmed(fields[3])
            &&& window.container_id == trimmed(fields[4])
            &&& window.tree_index == tree_index_of(trimmed(fields[5]))
        },
{
    law_joined_cut_again(fields, '|');
}

/// A line of more or fewer fields describes no window.
pub proof fn law_other_shapes(fields: Seq<Seq<char>>, hidden: Seq<Seq<char>>)
    requires
        fields.len() > 0,
        fields.len() != 6,
        forall|i: int| 0 <= i < fields.len() ==> !(#[trigger] fields[i]).contains('|'),
    ensures
        window_in(joined(fields, seq!['|']), hidden) is None,
{
    law_joined_cut_again(fields, '|');
}

/// A place in the tree is read from its decimal notation, with a minus sign or without, and one
/// that is out of range or no number counts as 999.
pub proof fn law_place_read(n: nat, s: Seq<char>)
    ensures
        n <= 0x7fff_ffff ==> tree_index_of(decimal(n)) == n,
        n > 0x7fff_ffff ==> tree_index_of(decimal(n)) == 999,
        n <= 0x8000_0000 ==> tree_index_of(seq!['-'] + decimal(n)) == 0 - n,
        n > 0x8000_0000 ==> tree_index_of(seq!['-'] + decimal(n)) == 999,
        integer(s) is None ==> tree_index_of(s) == 999,
        integer(s) matches Some(v) ==> tree_index_of(s) == if -0x8000_0000 <= v <= 0x7fff_ffff {
            v
        } else {
            999
        },
{
    law_decimal_read_back(n);
    lemma_decimal_digits(n);
    assert(decimal(n)[0] != '+');
    law_integer_signs(decimal(n));
}

/// The windows of a list are those of its first lines, and then those of the others; one line
/// gives the window that it describes, or none.
pub proof fn law_windows_line_by_line(
    line: Seq<char>,
    a: Seq<Seq<char>>,
    b: Seq<Seq<char>>,
    hidden: Seq<Seq<char>>,
)
    ensures
        windows_in(a + b, hidden) == windows_in(a, hidden) + windows_in(b, hidden),
        window_in(line, hidden) matches Some(window) ==> windows_in(seq![line], hidden) == seq![
            window,
        ],
        window_in(line, hidden) is None ==> windows_in(seq![line], hidden).len() == 0,
    decreases b.len(),
{
    reveal_with_fuel(windows_in, 2);
    assert(seq![line].drop_last() == Seq::<Seq<char>>::empty());
    if b.len() == 0 {
        assert(a + b == a);
        assert(windows_in(a, hidden) + windows_in(b, hidden) == windows_in(a, hidden));
    } else {
        law_windows_line_by_line(line, a, b.drop_last(), hidden);
        assert((a + b).drop_last() == a + b.drop_last());
        assert((a + b).last() == b.last());
        assert(windows_in(a + b, hidden) == windows_in(a, hidden) + windows_in(b, hidden));
    }
}

/// What a list of windows or of items holds is what each of them does.
pub proof fn law_views_of_windows(list: Seq<WindowInfo>, items: Seq<IconGroup>)
    ensures
        windows_view(list).len() == list.len(),
        forall|i: int|
            0 <= i < list.len() ==> {
                let seen = #[trigger] windows_view(list)[i];
                &&& seen.workspace == list[i].workspace@
                &&& seen.app_name == list[i].app_name@
                &&& seen.layout == list[i].layout@
                &&& seen.container_id == list[i].container_id@
                &&& seen.tree_index == list[i].tree_index
            },
        groups_view(items).len() == items.len(),
        forall|i: int|
            0 <= i < items.len() ==> {
                let seen = #[trigger] groups_view(items)[i];
                &&& seen.icons.len() == items[i].icons.len()
                &&& forall|k: int|
                    0 <= k < items[i].icons.len() ==> #[trigger] seen.icons[k]
                        == items[i].icons[k]@
                &&& seen.is_accordion == items[i].is_accordion
                &&& seen.is_floating == items[i].is_floating
                &&& seen.has_focused == items[i].has_focused
            },
{
}

// ---- Order ----

/// The windows on a workspace are those of a list that name it, in the order of the list.
pub proof fn law_windows_on_workspace(
    window: Window,
    a: Seq<Window>,
    b: Seq<Window>,
    workspace: Seq<char>,
)
    ensures
        on_workspace(a + b, workspace) == on_workspace(a, workspace) + on_workspace(b, workspace),
        window.workspace == workspace ==> on_workspace(seq![window], workspace) == seq![window],
        window.workspace != workspace ==> on_workspace(seq![window], workspace).len() == 0,
    decreases b.len(),
{
    let here = |w: Window| w.workspace == workspace;
    let none = Seq::<Window>::empty();
    assert(on_workspace(none, workspace) == none) by {
        reveal(Seq::filter);
    }
    assert(none.push(window) == seq![window]);
    lemma_filter_push(none, window, here);
    if b.len() == 0 {
        assert(a + b == a);
        assert(b == none);
        assert(on_workspace(a, workspace) + none == on_workspace(a, workspace));
    } else {
        let start = b.drop_last();
        law_windows_on_workspace(window, a, start, workspace);
        assert(b == start.push(b.last()));
        assert(a + b == (a + start).push(b.last()));
        lemma_filter_push(start, b.last(), here);
        lemma_filter_push(a + start, b.last(), here);
        assert(on_workspace(a + b, workspace) == on_workspace(a, workspace) + on_workspace(
            b,
            workspace,
        ));
    }
}

/// Windows are put in order: none is lost and none added, no tree index falls from one to the
/// next, and of those with the same index the first in the list stays first.
pub proof fn law_arranged(windows: Seq<Window>, k: i32)
    ensures
        in_tree_order(windows).to_multiset() == windows.to_multiset(),
        forall|i: int, j: int|
            0 <= i <= j < in_tree_order(windows).len() ==> (#[trigger] in_tree_order(
                windows,
            )[i]).tree_index <= (#[trigger] in_tree_order(windows)[j]).tree_index,
        in_tree_order(windows).filter(|w: Window| w.tree_index == k) == windows.filter(
            |w: Window| w.tree_index == k,
        ),
{
    law_tree_order(windows);
    assert(at_index(in_tree_order(windows), k) == at_index(windows, k));
}

// ---- Items ----

/// Whether a layout has `accordion` somewhere in it.
pub open spec fn names_accordion(layout: Seq<char>) -> bool {
    exists|a: Seq<char>, b: Seq<char>| layout == #[trigger] (a + "accordion"@ + b)
}

/// Whether a window is the first of those that an item shows: every one that is in no accordion,
/// and of those in accordions the first of each container.
pub open spec fn begins_item(windows: Seq<Window>, i: int) -> bool {
    names_accordion(windows[i].layout) ==> forall|j: int|
        0 <= j < i && names_accordion((#[trigger] windows[j]).layout) ==> windows[j].container_id
            != windows[i].container_id
}

/// The numbers below `n`.
pub open spec fn below(n: nat) -> Seq<int> {
    Seq::new(n, |i: int| i)
}

/// Which windows begin an item, in their order.
pub open spec fn item_beginnings(windows: Seq<Window>) -> Seq<int> {
    below(windows.len()).filter(|i: int| begins_item(windows, i))
}

/// Which windows the item shows that begins with the `i`th: all of the same container for an
/// accordion, else that one alone.
pub open spec fn shown_with(windows: Seq<Window>, i: int) -> Seq<int> {
    if names_accordion(windows[i].layout) {
        below(windows.len()).filter(|j: int| windows[j].container_id == windows[i].container_id)
    } else {
        seq![i]
    }
}

/// Whether `icon` is what the map has for `app`, else for `_default`, else `:default:`.
pub open spec fn is_icon_for(
    icon: Seq<char>,
    icons: Map<Seq<char>, Seq<char>>,
    app: Seq<char>,
) -> bool {
    &&& icons.dom().contains(app) ==> icon == icons[app]
    &&& !icons.dom().contains(app) && icons.dom().contains("_default"@) ==> icon
        == icons["_default"@]
    &&& !icons.dom().contains(app) && !icons.dom().contains("_default"@) ==> icon == ":default:"@
}

/// A window is in an accordion just where its layout says so somewhere.
pub proof fn law_accordion_named(window: Window)
    ensures
        is_accordion(window) <==> names_accordion(window.layout),
{
    if names_accordion(window.layout) {
        let (a, b) = choose|a: Seq<char>, b: Seq<char>|
            window.layout == #[trigger] (a + "accordion"@ + b);
        law_part_found(a, "accordion"@, b);
    }
    if has_part(window.layout, "accordion"@) {
        law_found_part_stands(window.layout, "accordion"@);
    }
}

/// The windows that a test picks, by their numbers.
proof fn lemma_picked(windows: Seq<Window>, n: nat, keep: spec_fn(Window) -> bool)
    requires
        n <= windows.len(),
    ensures
        ({
            let kept = windows.take(n as int).filter(keep);
            let numbers = below(n).filter(|j: int| keep(windows[j]));
            &&& kept.len() == numbers.len()
            &&& forall|i: int|
                0 <= i < kept.len() ==> 0 <= #[trigger] numbers[i] < n && kept[i]
                    == windows[numbers[i]]
        }),
    decreases n,
{
    let by_number = |j: int| keep(windows[j]);
    if n == 0 {
        reveal(Seq::filter);
    } else {
        let m = (n - 1) as nat;
        lemma_picked(windows, m, keep);
        assert(windows.take(n as int) == windows.take(m as int).push(windows[m as int]));
        assert(below(n) == below(m).push(m as int));
        lemma_filter_push(windows.take(m as int), windows[m as int], keep);
        lemma_filter_push(below(m), m as int, by_number);
    }
}

/// The item that begins with the `i`th window.
spec fn group_from(
    windows: Seq<Window>,
    i: int,
    focused_app: Seq<char>,
    icons: Map<Seq<char>, Seq<char>>,
) -> Group {
    if is_accordion(windows[i]) {
        accordion_group(windows, windows[i].container_id, focused_app, icons)
    } else {
        single_group(windows[i], focused_app, icons)
    }
}

/// The items for the first `n` windows begin with those of them that begin one.
proof fn lemma_items_begin(
    windows: Seq<Window>,
    n: nat,
    focused_app: Seq<char>,
    icons: Map<Seq<char>, Seq<char>>,
)
    requires
        n <= windows.len(),
    ensures
        ({
            let groups = groups_upto(windows, n as int, focused_app, icons);
            let starts = below(n).filter(|i: int| begins_item(windows, i));
            &&& groups.len() == starts.len()
            &&& forall|k: int|
                0 <= k < groups.len() ==> 0 <= #[trigger] starts[k] < n && groups[k] == group_from(
                    windows,
                    starts[k],
                    focused_app,
                    icons,
                )
        }),
    decreases n,
{
    let begins = |i: int| begins_item(windows, i);
    if n == 0 {
        reveal(Seq::filter);
    } else {
        let m = (n - 1) as nat;
        let last = m as int;
        lemma_items_begin(windows, m, focused_app, icons);
        assert(below(n) == below(m).push(last));
        lemma_filter_push(below(m), last, begins);
        law_accordion_named(windows[last]);
        assert(begins_item(windows, last) <==> !is_accordion(windows[last]) || !shown_before(
            windows,
            last,
            windows[last].container_id,
        )) by {
            assert forall|j: int| 0 <= j < last implies is_accordion(#[trigger] windows[j])
                == names_accordion(windows[j].layout) by {
                law_accordion_named(windows[j]);
            }
        }
    }
}

/// The items of a workspace, one by one. There is one for each window that is in no accordion, and
/// one for each container with windows that are, in the order of their first windows. An item has
/// one icon for each window that it shows, in their order, and each icon is the one of that
/// window's application. It is marked as an accordion, as floating and as focused by the windows
/// that it shows.
pub proof fn law_items_one_by_one(
    windows: Seq<Window>,
    focused_app: Seq<char>,
    icons: Map<Seq<char>, Seq<char>>,
)
    ensures
        groups_of(windows, focused_app, icons).len() == item_beginnings(windows).len(),
        forall|k: int|
            0 <= k < item_beginnings(windows).len() ==> {
                let first = #[trigger] item_beginnings(windows)[k];
                let group = groups_of(windows, focused_app, icons)[k];
                let shown = shown_with(windows, first);
                &&& 0 <= first < windows.len()
                &&& group.icons.len() == shown.len()
                &&& forall|i: int|
                    0 <= i < shown.len() ==> 0 <= #[trigger] shown[i] < windows.len()
                        && is_icon_for(group.icons[i], icons, windows[shown[i]].app_name)
                &&& group.has_focused <==> exists|i: int|
                    0 <= i < shown.len() && windows[#[trigger] shown[i]].app_name == focused_app
                &&& group.is_accordion <==> names_accordion(windows[first].layout)
                &&& group.is_floating <==> windows[first].layout == "floating"@
            },
{
    let n = windows.len();
    lemma_items_begin(windows, n, focused_app, icons);
    let starts = item_beginnings(windows);
    let groups = groups_of(windows, focused_app, icons);
    assert forall|k: int| 0 <= k < starts.len() implies {
        let first = #[trigger] starts[k];
        let group = groups[k];
        let shown = shown_with(windows, first);
        &&& 0 <= first < windows.len()
        &&& group.icons.len() == shown.len()
        &&& forall|i: int|
            0 <= i < shown.len() ==> 0 <= #[trigger] shown[i] < windows.len() && is_icon_for(
                group.icons[i],
                icons,
                windows[shown[i]].app_name,
            )
        &&& group.has_focused <==> exists|i: int|
            0 <= i < shown.len() && windows[#[trigger] shown[i]].app_name == focused_app
        &&& group.is_accordion <==> names_accordion(windows[first].layout)
        &&& group.is_floating <==> windows[first].layout == "floating"@
    } by {
        lemma_item(windows, starts[k], focused_app, icons);
    }
}

/// What the item shows that begins with the `i`th window.
proof fn lemma_item(
    windows: Seq<Window>,
    first: int,
    focused_app: Seq<char>,
    icons: Map<Seq<char>, Seq<char>>,
)
    requires
        0 <= first < windows.len(),
    ensures
        ({
            let group = group_from(windows, first, focused_app, icons);
            let shown = shown_with(windows, first);
            &&& group.icons.len() == shown.len()
            &&& forall|i: int|
                0 <= i < shown.len() ==> 0 <= #[trigger] shown[i] < windows.len() && is_icon_for(
                    group.icons[i],
                    icons,
                    windows[shown[i]].app_name,
                )
            &&& group.has_focused <==> exists|i: int|
                0 <= i < shown.len() && windows[#[trigger] shown[i]].app_name == focused_app
            &&& group.is_accordion <==> names_accordion(windows[first].layout)
            &&& group.is_floating <==> windows[first].layout == "floating"@
        }),
{
    let window = windows[first];
    let group = group_from(windows, first, focused_app, icons);
    let shown = shown_with(windows, first);
    law_accordion_named(window);
    if is_accordion(window) {
        let here = |w: Window| w.container_id == window.container_id;
        let by_number = |j: int| windows[j].container_id == windows[first].container_id;
        let inside = in_container(windows, window.container_id);
        lemma_picked(windows, windows.len(), here);
        assert(windows.take(windows.len() as int) == windows);
        assert((|j: int| here(windows[j])) =~= by_number);
        assert(shown.len() == inside.len());
        assert forall|i: int| 0 <= i < shown.len() implies 0 <= #[trigger] shown[i] < windows.len()
            && inside[i] == windows[shown[i]] by {}
        assert(group.icons == icons_of(inside, icons));
        if any_focused(inside, focused_app) {
            let i = choose|i: int|
                0 <= i < inside.len() && (#[trigger] inside[i]).app_name == focused_app;
            assert(windows[shown[i]].app_name == focused_app);
        }
        if exists|i: int| 0 <= i < shown.len() && windows[#[trigger] shown[i]].app_name
            == focused_app {
            let i = choose|i: int|
                0 <= i < shown.len() && windows[#[trigger] shown[i]].app_name == focused_app;
            assert(inside[i].app_name == focused_app);
        }
        if window.layout == "floating"@ {
            reveal_strlit("floating");
            reveal_strlit("accordion");
            assert("floating"@.len() < "accordion"@.len());
        }
    } else {
        assert(shown[0] == first);
    }
}

} // verus!
