//! The windows that AeroSpace lists, in the order and the groups in which the bar shows them.

use vstd::hash_set::StringHashSet;
use vstd::prelude::*;

use crate::icons::{icon_of, IconMap};
use crate::number::{integer, read_i32};
use crate::text::{
    contains, has_part, joined, law_joined_cut_again, lines, lines_of, listed, pieces, same, slices,
    split, texts, trim, trimmed,
};

verus! {

/// Where a window stands whose place in the tree is not given as a number.
pub const UNPLACED_INDEX: i32 = 999;

/// A window in the list.
pub struct WindowInfo {
    pub workspace: String,
    pub app_name: String,
    pub layout: String,
    pub container_id: String,
    pub tree_index: i32,
}

/// What a window in the list holds.
#[verifier::ext_equal]
pub struct Window {
    pub workspace: Seq<char>,
    pub app_name: Seq<char>,
    pub layout: Seq<char>,
    pub container_id: Seq<char>,
    pub tree_index: i32,
}

impl View for WindowInfo {
    type V = Window;

    open spec fn view(&self) -> Window {
        Window {
            workspace: self.workspace@,
            app_name: self.app_name@,
            layout: self.layout@,
            container_id: self.container_id@,
            tree_index: self.tree_index,
        }
    }
}

/// What the windows of a list hold.
pub open spec fn windows_view(list: Seq<WindowInfo>) -> Seq<Window> {
    list.map_values(|window: WindowInfo| window@)
}

/// The place in the tree that `s` gives.
pub open spec fn tree_index_of(s: Seq<char>) -> i32 {
    match integer(s) {
        Some(v) if i32::MIN <= v <= i32::MAX => v as i32,
        _ => UNPLACED_INDEX,
    }
}

/// The window that a line of the list describes: six fields between bars, which are workspace,
/// application, bundle, layout, container and place in the tree. A line of another shape, one
/// without an application, and one of a hidden bundle describe none.
pub open spec fn window_in(line: Seq<char>, hidden: Seq<Seq<char>>) -> Option<Window> {
    let fields = pieces(line, '|').map_values(|field: Seq<char>| trimmed(field));
    if fields.len() != 6 || fields[1].len() == 0 || hidden.contains(fields[2]) {
        None
    } else {
        Some(
            Window {
                workspace: fields[0],
                app_name: fields[1],
                layout: fields[3],
                container_id: fields[4],
                tree_index: tree_index_of(fields[5]),
            },
        )
    }
}

/// The windows that the lines of a list describe.
pub open spec fn windows_in(list: Seq<Seq<char>>, hidden: Seq<Seq<char>>) -> Seq<Window>
    decreases list.len(),
{
    if list.len() == 0 {
        Seq::empty()
    } else {
        let before = windows_in(list.drop_last(), hidden);
        match window_in(list.last(), hidden) {
            Some(window) => before.push(window),
            None => before,
        }
    }
}

/// The windows on a workspace.
pub open spec fn on_workspace(windows: Seq<Window>, workspace: Seq<char>) -> Seq<Window> {
    windows.filter(|window: Window| window.workspace == workspace)
}

/// `sorted` with `window` put in before the first that belongs after it.
pub open spec fn placed(sorted: Seq<Window>, window: Window) -> Seq<Window>
    decreases sorted.len(),
{
    if sorted.len() == 0 || sorted.last().tree_index <= window.tree_index {
        sorted.push(window)
    } else {
        placed(sorted.drop_last(), window).push(sorted.last())
    }
}

/// The windows in the order of the tree, those at the same place in the order of the list.
pub open spec fn in_tree_order(windows: Seq<Window>) -> Seq<Window>
    decreases windows.len(),
{
    if windows.len() == 0 {
        Seq::empty()
    } else {
        placed(in_tree_order(windows.drop_last()), windows.last())
    }
}

/// Reads a line of the list.
pub fn read_window(line: &str, hidden: &Vec<String>) -> (window: Option<WindowInfo>)
    ensures
        match window {
            Some(window) => window_in(line@, texts(hidden@)) == Some(window@),
            None => window_in(line@, texts(hidden@)) is None,
        },
{
    let parts = split(line, '|');
    let ghost raw = pieces(line@, '|');
    let ghost fields = raw.map_values(|field: Seq<char>| trimmed(field));
    if parts.len() != 6 {
        return None;
    }
    proof {
        assert forall|i: int| 0 <= i < 6 implies trimmed((#[trigger] parts[i])@)
            == fields[i] by {
            assert(slices(parts@)[i] == parts[i]@);
        }
    }
    let app_name = trim(parts[1]);
    if app_name.is_empty() || listed(hidden, trim(parts[2])) {
        return None;
    }
    let tree_index: i32 = match read_i32(trim(parts[5])) {
        Some(v) => v,
        None => UNPLACED_INDEX,
    };
    Some(
        WindowInfo {
            workspace: trim(parts[0]).to_owned(),
            app_name: app_name.to_owned(),
            layout: trim(parts[3]).to_owned(),
            container_id: trim(parts[4]).to_owned(),
            tree_index,
        },
    )
}

/// Reads the list of windows.
pub fn read_windows(list: &str, hidden: &Vec<String>) -> (windows: Vec<WindowInfo>)
    ensures
        windows_view(windows@) == windows_in(lines_of(list@), texts(hidden@)),
{
    let all = lines(list);
    let ghost every = lines_of(list@);
    let ghost out = texts(hidden@);
    let mut windows: Vec<WindowInfo> = Vec::new();
    let mut i: usize = 0;
    while i < all.len()
        invariant
            i <= all.len(),
            slices(all@) == every,
            out == texts(hidden@),
            windows_view(windows@) == windows_in(every.take(i as int), out),
        decreases all.len() - i,
    {
        assert(every[i as int] == all[i as int]@);
        assert(every.take(i + 1).drop_last() == every.take(i as int));
        let ghost before = windows_view(windows@);
        if let Some(window) = read_window(all[i], hidden) {
            windows.push(window);
            assert(windows_view(windows@) == before.push(window@));
        }
        i += 1;
    }
    assert(every.take(i as int) == every);
    windows
}

/// A copy of a window.
fn copy_window(window: &WindowInfo) -> (copy: WindowInfo)
    ensures
        copy@ == window@,
{
    WindowInfo {
        workspace: window.workspace.clone(),
        app_name: window.app_name.clone(),
        layout: window.layout.clone(),
        container_id: window.container_id.clone(),
        tree_index: window.tree_index,
    }
}

/// Puts `window` in its place among sorted windows.
fn place(sorted: &mut Vec<WindowInfo>, window: WindowInfo)
    ensures
        windows_view(final(sorted)@) == placed(windows_view(old(sorted)@), window@),
{
    let ghost all = windows_view(old(sorted)@);
    let mut at: usize = sorted.len();
    assert(all.take(at as int) == all);
    assert(placed(all, window@) == placed(all.take(at as int), window@) + all.skip(at as int));
    while at > 0 && sorted[at - 1].tree_index > window.tree_index
        invariant
            at <= sorted.len(),
            all == windows_view(sorted@),
            placed(all, window@) == placed(all.take(at as int), window@) + all.skip(at as int),
        decreases at,
    {
        let ghost head = all.take(at as int);
        assert(head.last() == sorted[at - 1]@);
        assert(head.drop_last() == all.take(at - 1));
        assert(all.skip(at - 1) == seq![head.last()] + all.skip(at as int));
        assert(placed(all.take(at - 1), window@).push(head.last()) + all.skip(at as int)
            == placed(all.take(at - 1), window@) + all.skip(at - 1));
        at -= 1;
    }
    let ghost head = all.take(at as int);
    if at > 0 {
        assert(head.last() == sorted[at - 1]@);
    }
    assert(placed(head, window@) == head.push(window@));
    sorted.insert(at, window);
    assert(windows_view(sorted@) == head.push(window@) + all.skip(at as int));
}

/// The windows on `workspace`, in the order of the tree.
pub fn arranged(windows: &Vec<WindowInfo>, workspace: &str) -> (sorted: Vec<WindowInfo>)
    ensures
        windows_view(sorted@) == in_tree_order(on_workspace(windows_view(windows@), workspace@)),
{
    let ghost all = windows_view(windows@);
    let ghost here = |window: Window| window.workspace == workspace@;
    let mut sorted: Vec<WindowInfo> = Vec::new();
    let mut i: usize = 0;
    proof {
        assert(all.take(0).filter(here) == Seq::<Window>::empty()) by {
            reveal(Seq::filter);
        }
        assert(windows_view(sorted@) == Seq::<Window>::empty());
    }
    while i < windows.len()
        invariant
            i <= windows.len(),
            all == windows_view(windows@),
            here == |window: Window| window.workspace == workspace@,
            windows_view(sorted@) == in_tree_order(all.take(i as int).filter(here)),
        decreases windows.len() - i,
    {
        let ghost now = all.take(i + 1);
        let ghost kept = all.take(i as int).filter(here);
        proof {
            reveal(Seq::filter);
            assert(now.drop_last() == all.take(i as int));
            assert(now.last() == windows[i as int]@);
        }
        if same(windows[i].workspace.as_str(), workspace) {
            assert(now.filter(here) == kept.push(now.last()));
            assert(kept.push(now.last()).drop_last() == kept);
            place(&mut sorted, copy_window(&windows[i]));
        }
        i += 1;
    }
    assert(all.take(i as int) == all);
    sorted
}

/// Whether a window is in an accordion.
pub open spec fn is_accordion(window: Window) -> bool {
    has_part(window.layout, "accordion"@)
}

/// What the bar shows as one item.
pub struct IconGroup {
    pub icons: Vec<String>,
    pub is_accordion: bool,
    pub is_floating: bool,
    pub has_focused: bool,
}

/// What an item shows.
#[verifier::ext_equal]
pub struct Group {
    pub icons: Seq<Seq<char>>,
    pub is_accordion: bool,
    pub is_floating: bool,
    pub has_focused: bool,
}

impl View for IconGroup {
    type V = Group;

    open spec fn view(&self) -> Group {
        Group {
            icons: texts(self.icons@),
            is_accordion: self.is_accordion,
            is_floating: self.is_floating,
            has_focused: self.has_focused,
        }
    }
}

/// What the items of a list show.
pub open spec fn groups_view(list: Seq<IconGroup>) -> Seq<Group> {
    list.map_values(|group: IconGroup| group@)
}

/// The windows in a container.
pub open spec fn in_container(windows: Seq<Window>, container_id: Seq<char>) -> Seq<Window> {
    windows.filter(|window: Window| window.container_id == container_id)
}

/// The icons of windows.
pub open spec fn icons_of(windows: Seq<Window>, icons: Map<Seq<char>, Seq<char>>) -> Seq<
    Seq<char>,
> {
    windows.map_values(|window: Window| icon_of(icons, window.app_name))
}

/// Whether the focused application has one of the windows.
pub open spec fn any_focused(windows: Seq<Window>, focused_app: Seq<char>) -> bool {
    exists|i: int| 0 <= i < windows.len() && (#[trigger] windows[i]).app_name == focused_app
}

/// The item for an accordion: one icon for each window in its container.
pub open spec fn accordion_group(
    windows: Seq<Window>,
    container_id: Seq<char>,
    focused_app: Seq<char>,
    icons: Map<Seq<char>, Seq<char>>,
) -> Group {
    let inside = in_container(windows, container_id);
    Group {
        icons: icons_of(inside, icons),
        is_accordion: true,
        is_floating: false,
        has_focused: any_focused(inside, focused_app),
    }
}

/// The item for a window on its own.
pub open spec fn single_group(
    window: Window,
    focused_app: Seq<char>,
    icons: Map<Seq<char>, Seq<char>>,
) -> Group {
    Group {
        icons: seq![icon_of(icons, window.app_name)],
        is_accordion: false,
        is_floating: window.layout == "floating"@,
        has_focused: window.app_name == focused_app,
    }
}

/// Whether an accordion window before the `n`th is in the container.
pub open spec fn shown_before(windows: Seq<Window>, n: int, container_id: Seq<char>) -> bool {
    exists|i: int|
        0 <= i < n && is_accordion(#[trigger] windows[i]) && windows[i].container_id == container_id
}

/// The items for the first `n` windows: one for each window that is in no accordion, and one for
/// each accordion, at the first of its windows.
pub open spec fn groups_upto(
    windows: Seq<Window>,
    n: int,
    focused_app: Seq<char>,
    icons: Map<Seq<char>, Seq<char>>,
) -> Seq<Group>
    decreases n,
{
    if n <= 0 {
        Seq::empty()
    } else {
        let before = groups_upto(windows, n - 1, focused_app, icons);
        let window = windows[n - 1];
        if !is_accordion(window) {
            before.push(single_group(window, focused_app, icons))
        } else if shown_before(windows, n - 1, window.container_id) {
            before
        } else {
            before.push(accordion_group(windows, window.container_id, focused_app, icons))
        }
    }
}

/// The items for a workspace's windows.
pub open spec fn groups_of(
    windows: Seq<Window>,
    focused_app: Seq<char>,
    icons: Map<Seq<char>, Seq<char>>,
) -> Seq<Group> {
    groups_upto(windows, windows.len() as int, focused_app, icons)
}

/// Makes the item for an accordion.
fn make_accordion(
    windows: &Vec<WindowInfo>,
    container_id: &str,
    focused_app: &str,
    icons: &IconMap,
) -> (group: IconGroup)
    ensures
        group@ == accordion_group(windows_view(windows@), container_id@, focused_app@, icons@),
{
    let ghost all = windows_view(windows@);
    let ghost here = |window: Window| window.container_id == container_id@;
    let mut shown: Vec<String> = Vec::new();
    let mut has_focused = false;
    let mut i: usize = 0;
    proof {
        assert(all.take(0).filter(here) == Seq::<Window>::empty()) by {
            reveal(Seq::filter);
        }
        assert(texts(shown@) == icons_of(Seq::empty(), icons@));
    }
    while i < windows.len()
        invariant
            i <= windows.len(),
            all == windows_view(windows@),
            here == |window: Window| window.container_id == container_id@,
            texts(shown@) == icons_of(all.take(i as int).filter(here), icons@),
            has_focused == any_focused(all.take(i as int).filter(here), focused_app@),
        decreases windows.len() - i,
    {
        let ghost now = all.take(i + 1);
        let ghost kept = all.take(i as int).filter(here);
        proof {
            reveal(Seq::filter);
            assert(now.drop_last() == all.take(i as int));
            assert(now.last() == windows[i as int]@);
        }
        if same(windows[i].container_id.as_str(), container_id) {
            let ghost more = kept.push(now.last());
            assert(now.filter(here) == more);
            let ghost texts_before = texts(shown@);
            let icon = icons.icon_for(windows[i].app_name.as_str());
            shown.push(icon);
            assert(texts(shown@) == texts_before.push(icon@));
            assert(icons_of(more, icons@) == icons_of(kept, icons@).push(icon@));
            let focused = same(windows[i].app_name.as_str(), focused_app);
            proof {
                if focused {
                    assert(more[kept.len() as int].app_name == focused_app@);
                }
                if any_focused(kept, focused_app@) {
                    let j = choose|j: int|
                        0 <= j < kept.len() && (#[trigger] kept[j]).app_name == focused_app@;
                    assert(more[j].app_name == focused_app@);
                }
                if any_focused(more, focused_app@) {
                    let j = choose|j: int|
                        0 <= j < more.len() && (#[trigger] more[j]).app_name == focused_app@;
                    if j < kept.len() {
                        assert(kept[j].app_name == focused_app@);
                    }
                }
            }
            has_focused = has_focused || focused;
        }
        i += 1;
    }
    assert(all.take(i as int) == all);
    IconGroup { icons: shown, is_accordion: true, is_floating: false, has_focused }
}

/// Makes the items for a workspace's windows.
pub fn make_groups(windows: &Vec<WindowInfo>, focused_app: &str, icons: &IconMap) -> (groups: Vec<
    IconGroup,
>)
    ensures
        groups_view(groups@) == groups_of(windows_view(windows@), focused_app@, icons@),
{
    let ghost all = windows_view(windows@);
    let mut groups: Vec<IconGroup> = Vec::new();
    let mut seen = StringHashSet::new();
    let mut i: usize = 0;
    assert(groups_view(groups@) == Seq::<Group>::empty());
    while i < windows.len()
        invariant
            i <= windows.len(),
            all == windows_view(windows@),
            forall|id: Seq<char>| #[trigger]
                seen@.contains(id) <==> shown_before(all, i as int, id),
            groups_view(groups@) == groups_upto(all, i as int, focused_app@, icons@),
        decreases windows.len() - i,
    {
        let window = &windows[i];
        assert(all[i as int] == window@);
        let ghost before = groups_view(groups@);
        let ghost seen_before = seen@;
        if contains(window.layout.as_str(), "accordion") {
            if !seen.contains(window.container_id.as_str()) {
                seen.insert(window.container_id.clone());
                let group = make_accordion(
                    windows,
                    window.container_id.as_str(),
                    focused_app,
                    icons,
                );
                groups.push(group);
                assert(groups_view(groups@) == before.push(group@));
            }
            assert(seen@ == seen_before.insert(window.container_id@));
        } else {
            let mut alone: Vec<String> = Vec::new();
            alone.push(icons.icon_for(window.app_name.as_str()));
            let group = IconGroup {
                icons: alone,
                is_accordion: false,
                is_floating: same(window.layout.as_str(), "floating"),
                has_focused: same(window.app_name.as_str(), focused_app),
            };
            assert(group@ == single_group(window@, focused_app@, icons@));
            groups.push(group);
            assert(groups_view(groups@) == before.push(group@));
        }
        proof {
            assert forall|id: Seq<char>| #[trigger] seen@.contains(id) <==> shown_before(
                all,
                i + 1,
                id,
            ) by {
                if shown_before(all, i as int, id) {
                    let j = choose|j: int|
                        0 <= j < i && is_accordion(#[trigger] all[j]) && all[j].container_id == id;
                    assert(is_accordion(all[j]) && all[j].container_id == id);
                }
                if is_accordion(all[i as int]) && all[i as int].container_id == id {
                    assert(shown_before(all, i + 1, id));
                }
                if shown_before(all, i + 1, id) {
                    let j = choose|j: int|
                        0 <= j < i + 1 && is_accordion(#[trigger] all[j]) && all[j].container_id
                            == id;
                    if j < i {
                        assert(shown_before(all, i as int, id));
                    }
                }
            }
        }
        i += 1;
    }
    groups
}

/// Whether windows are in the order of the tree.
pub open spec fn is_tree_ordered(windows: Seq<Window>) -> bool {
    forall|i: int, j: int|
        0 <= i <= j < windows.len() ==> (#[trigger] windows[i]).tree_index <= (
        #[trigger] windows[j]).tree_index
}

/// The windows at one place in the tree.
pub open spec fn at_index(windows: Seq<Window>, tree_index: i32) -> Seq<Window> {
    windows.filter(|window: Window| window.tree_index == tree_index)
}

/// What a filter makes of a sequence with one more at its end.
pub proof fn lemma_filter_push<A>(s: Seq<A>, a: A, keep: spec_fn(A) -> bool)
    ensures
        s.push(a).filter(keep) == if keep(a) {
            s.filter(keep).push(a)
        } else {
            s.filter(keep)
        },
{
    reveal(Seq::filter);
    assert(s.push(a).drop_last() == s);
}

/// What putting a window in its place does.
proof fn lemma_placed(sorted: Seq<Window>, window: Window)
    requires
        is_tree_ordered(sorted),
    ensures
        is_tree_ordered(placed(sorted, window)),
        placed(sorted, window).to_multiset() == sorted.to_multiset().insert(window),
        placed(sorted, window).len() == sorted.len() + 1,
        forall|i: int|
            0 <= i < placed(sorted, window).len() ==> sorted.contains(
                #[trigger] placed(sorted, window)[i],
            ) || placed(sorted, window)[i] == window,
        forall|k: i32| #[trigger]
            at_index(placed(sorted, window), k) == if k == window.tree_index {
                at_index(sorted, k).push(window)
            } else {
                at_index(sorted, k)
            },
    decreases sorted.len(),
{
    broadcast use vstd::seq_lib::group_to_multiset_ensures;
    let result = placed(sorted, window);
    if sorted.len() == 0 || sorted.last().tree_index <= window.tree_index {
        assert forall|k: i32| #[trigger] at_index(result, k) == if k == window.tree_index {
            at_index(sorted, k).push(window)
        } else {
            at_index(sorted, k)
        } by {
            lemma_filter_push(sorted, window, |w: Window| w.tree_index == k);
        }
        assert forall|i: int| 0 <= i < result.len() implies sorted.contains(#[trigger] result[i])
            || result[i] == window by {
            if i < sorted.len() {
                assert(result[i] == sorted[i]);
            }
        }
    } else {
        let start = sorted.drop_last();
        let last = sorted.last();
        let inner = placed(start, window);
        assert(sorted == start.push(last));
        lemma_placed(start, window);
        assert forall|i: int| 0 <= i < inner.len() implies (#[trigger] inner[i]).tree_index
            <= last.tree_index by {
            if start.contains(inner[i]) {
                let j = choose|j: int| 0 <= j < start.len() && start[j] == inner[i];
                assert(sorted[j] == inner[i]);
            }
        }
        assert forall|i: int| 0 <= i < result.len() implies sorted.contains(#[trigger] result[i])
            || result[i] == window by {
            if i < inner.len() {
                assert(result[i] == inner[i]);
                if start.contains(inner[i]) {
                    let j = choose|j: int| 0 <= j < start.len() && start[j] == inner[i];
                    assert(sorted[j] == inner[i]);
                }
            } else {
                assert(sorted[sorted.len() - 1] == last);
            }
        }
        assert(start.push(last).to_multiset() == start.to_multiset().insert(last));
        assert(inner.push(last).to_multiset() == inner.to_multiset().insert(last));
        assert(result.to_multiset() =~= sorted.to_multiset().insert(window));
        assert forall|k: i32| #[trigger] at_index(result, k) == if k == window.tree_index {
            at_index(sorted, k).push(window)
        } else {
            at_index(sorted, k)
        } by {
            let keep = |w: Window| w.tree_index == k;
            lemma_filter_push(inner, last, keep);
            lemma_filter_push(start, last, keep);
            assert(at_index(inner, k) == if k == window.tree_index {
                at_index(start, k).push(window)
            } else {
                at_index(start, k)
            });
        }
    }
}

/// Arranging windows loses none and adds none, puts them in the order of the tree, and leaves
/// those at the same place in the order that they came in.
pub proof fn law_tree_order(windows: Seq<Window>)
    ensures
        is_tree_ordered(in_tree_order(windows)),
        in_tree_order(windows).to_multiset() == windows.to_multiset(),
        forall|k: i32| #[trigger] at_index(in_tree_order(windows), k) == at_index(windows, k),
    decreases windows.len(),
{
    broadcast use vstd::seq_lib::group_to_multiset_ensures;
    if windows.len() > 0 {
        let start = windows.drop_last();
        let last = windows.last();
        assert(windows == start.push(last));
        law_tree_order(start);
        lemma_placed(in_tree_order(start), last);
        assert(start.push(last).to_multiset() == start.to_multiset().insert(last));
        assert forall|k: i32| #[trigger] at_index(in_tree_order(windows), k) == at_index(
            windows,
            k,
        ) by {
            lemma_filter_push(start, last, |w: Window| w.tree_index == k);
            assert(at_index(in_tree_order(start), k) == at_index(start, k));
        }
    } else {
        assert(in_tree_order(windows) == windows);
    }
}

/// A line that describes no window makes no difference to the list: one of another shape, one
/// without an application, and one of a hidden bundle.
pub proof fn law_other_lines_ignored(list: Seq<Seq<char>>, hidden: Seq<Seq<char>>, i: int)
    requires
        0 <= i < list.len(),
        window_in(list[i], hidden) is None,
    ensures
        windows_in(list.remove(i), hidden) == windows_in(list, hidden),
    decreases list.len(),
{
    if i == list.len() - 1 {
        assert(list.remove(i) == list.drop_last());
    } else {
        let start = list.drop_last();
        law_other_lines_ignored(start, hidden, i);
        assert(list.remove(i).drop_last() == start.remove(i));
        assert(list.remove(i).last() == list.last());
    }
}

/// A line of six fields describes the window with those fields, unless the application is hidden,
/// provided that a bar is in none of them, and white space around none.
pub proof fn law_line_read_back(fields: Seq<Seq<char>>, hidden: Seq<Seq<char>>, tree_index: i32)
    requires
        fields.len() == 6,
        forall|i: int|
            0 <= i < 6 ==> !(#[trigger] fields[i]).contains('|') && trimmed(fields[i])
                == fields[i],
        fields[1].len() > 0,
        !hidden.contains(fields[2]),
        integer(fields[5]) == Some(tree_index as int),
    ensures
        window_in(joined(fields, seq!['|']), hidden) == Some(
            Window {
                workspace: fields[0],
                app_name: fields[1],
                layout: fields[3],
                container_id: fields[4],
                tree_index,
            },
        ),
{
    law_joined_cut_again(fields, '|');
    assert(fields.map_values(|field: Seq<char>| trimmed(field)) == fields);
}

/// Whether the windows of each container are all in an accordion, or none of them is.
pub open spec fn containers_uniform(windows: Seq<Window>) -> bool {
    forall|i: int, j: int|
        0 <= i < windows.len() && 0 <= j < windows.len() && (#[trigger] windows[i]).container_id
            == (#[trigger] windows[j]).container_id ==> is_accordion(windows[i]) == is_accordion(
            windows[j],
        )
}

/// Further windows only add items at the end.
pub proof fn law_items_added_at_end(
    windows: Seq<Window>,
    n: int,
    m: int,
    focused_app: Seq<char>,
    icons: Map<Seq<char>, Seq<char>>,
)
    requires
        0 <= n <= m,
    ensures
        groups_upto(windows, n, focused_app, icons).is_prefix_of(
            groups_upto(windows, m, focused_app, icons),
        ),
    decreases m,
{
    if n < m {
        law_items_added_at_end(windows, n, m - 1, focused_app, icons);
    }
}

/// The windows that each of the items for the first `n` windows shows.
pub open spec fn shown_upto(windows: Seq<Window>, n: int) -> Seq<Seq<Window>>
    decreases n,
{
    if n <= 0 {
        Seq::empty()
    } else {
        let before = shown_upto(windows, n - 1);
        let window = windows[n - 1];
        if !is_accordion(window) {
            before.push(seq![window])
        } else if shown_before(windows, n - 1, window.container_id) {
            before
        } else {
            before.push(in_container(windows, window.container_id))
        }
    }
}

/// The windows that each of a workspace's items shows.
pub open spec fn shown_on(windows: Seq<Window>) -> Seq<Seq<Window>> {
    shown_upto(windows, windows.len() as int)
}

/// An item has the icons of the windows that it shows, one for each, and is of the focused
/// application where one of them is.
pub proof fn law_items_show_windows(
    windows: Seq<Window>,
    n: int,
    focused_app: Seq<char>,
    icons: Map<Seq<char>, Seq<char>>,
)
    ensures
        groups_upto(windows, n, focused_app, icons).len() == shown_upto(windows, n).len(),
        forall|i: int|
            0 <= i < shown_upto(windows, n).len() ==> (#[trigger] groups_upto(
                windows,
                n,
                focused_app,
                icons,
            )[i]).icons == icons_of(shown_upto(windows, n)[i], icons),
        forall|i: int|
            0 <= i < shown_upto(windows, n).len() ==> (#[trigger] groups_upto(
                windows,
                n,
                focused_app,
                icons,
            )[i]).has_focused == any_focused(shown_upto(windows, n)[i], focused_app),
    decreases n,
{
    if n > 0 {
        law_items_show_windows(windows, n - 1, focused_app, icons);
        let window = windows[n - 1];
        let alone = seq![window];
        assert(icons_of(alone, icons) == seq![icon_of(icons, window.app_name)]);
        assert(any_focused(alone, focused_app) == (window.app_name == focused_app)) by {
            assert(alone[0] == window);
        }
    }
}

/// The first that a filter keeps.
proof fn lemma_filter_first(s: Seq<Window>, keep: spec_fn(Window) -> bool, first: int)
    requires
        0 <= first < s.len(),
        keep(s[first]),
        forall|i: int| 0 <= i < first ==> !keep(#[trigger] s[i]),
    ensures
        s.filter(keep).len() > 0,
        s.filter(keep)[0] == s[first],
    decreases s.len(),
{
    let start = s.drop_last();
    assert(s == start.push(s.last()));
    lemma_filter_push(start, s.last(), keep);
    if first < start.len() {
        lemma_filter_first(start, keep, first);
    } else {
        if start.filter(keep).len() > 0 {
            let kept = start.filter(keep);
            start.lemma_filter_pred(keep, 0);
            start.lemma_filter_contains_rev(keep, kept[0]);
            let j = choose|j: int| 0 <= j < start.len() && start[j] == kept[0];
            assert(s[j] == kept[0]);
        }
    }
}

/// What a filter keeps of windows in the order of the tree is in that order.
proof fn lemma_filter_ordered(s: Seq<Window>, keep: spec_fn(Window) -> bool)
    requires
        is_tree_ordered(s),
    ensures
        is_tree_ordered(s.filter(keep)),
    decreases s.len(),
{
    if s.len() == 0 {
        reveal(Seq::filter);
    } else {
        let start = s.drop_last();
        let last = s.last();
        assert(s == start.push(last));
        lemma_filter_push(start, last, keep);
        lemma_filter_ordered(start, keep);
        let kept = start.filter(keep);
        assert forall|i: int| 0 <= i < kept.len() implies (#[trigger] kept[i]).tree_index
            <= last.tree_index by {
            start.lemma_filter_contains_rev(keep, kept[i]);
            let j = choose|j: int| 0 <= j < start.len() && start[j] == kept[i];
            assert(s[j] == kept[i]);
        }
    }
}

/// Items for windows in the order of the tree, where the windows of a container are all in an
/// accordion or none is: each item shows some, in that order, and the items come in the order of
/// their first windows.
pub proof fn law_items_in_tree_order(windows: Seq<Window>)
    requires
        is_tree_ordered(windows),
        containers_uniform(windows),
    ensures
        forall|i: int|
            0 <= i < shown_on(windows).len() ==> (#[trigger] shown_on(windows)[i]).len() > 0
                && is_tree_ordered(shown_on(windows)[i]),
        forall|i: int, j: int|
            0 <= i <= j < shown_on(windows).len() ==> (#[trigger] shown_on(
                windows,
            )[i])[0].tree_index <= (#[trigger] shown_on(windows)[j])[0].tree_index,
{
    lemma_items_ordered(windows, windows.len() as int);
}

/// The items for the first `n` windows come in the order of their first windows, which are among
/// those.
proof fn lemma_items_ordered(windows: Seq<Window>, n: int)
    requires
        is_tree_ordered(windows),
        containers_uniform(windows),
        0 <= n <= windows.len(),
    ensures
        forall|i: int|
            0 <= i < shown_upto(windows, n).len() ==> n > 0 && (#[trigger] shown_upto(
                windows,
                n,
            )[i]).len() > 0 && is_tree_ordered(shown_upto(windows, n)[i]) && shown_upto(
                windows,
                n,
            )[i][0].tree_index <= windows[n - 1].tree_index,
        forall|i: int, j: int|
            0 <= i <= j < shown_upto(windows, n).len() ==> (#[trigger] shown_upto(
                windows,
                n,
            )[i])[0].tree_index <= (#[trigger] shown_upto(windows, n)[j])[0].tree_index,
    decreases n,
{
    if n > 0 {
        lemma_items_ordered(windows, n - 1);
        let before = shown_upto(windows, n - 1);
        let window = windows[n - 1];
        if n > 1 {
            assert(windows[n - 2].tree_index <= windows[n - 1].tree_index);
        }
        if is_accordion(window) && !shown_before(windows, n - 1, window.container_id) {
            let inside = |w: Window| w.container_id == window.container_id;
            assert forall|i: int| 0 <= i < n - 1 implies !inside(#[trigger] windows[i]) by {
                if inside(windows[i]) {
                    assert(is_accordion(windows[i]) == is_accordion(windows[n - 1]));
                    assert(shown_before(windows, n - 1, window.container_id));
                }
            }
            lemma_filter_first(windows, inside, n - 1);
            lemma_filter_ordered(windows, inside);
        }
    }
}

/// The containers of the windows that are in accordions.
pub open spec fn accordion_containers(windows: Seq<Window>) -> Set<Seq<char>> {
    windows.filter(|w: Window| is_accordion(w)).map_values(|w: Window| w.container_id).to_set()
}

/// A workspace has as many items as it has windows in no accordion and different containers of
/// windows in accordions.
pub proof fn law_item_count(
    windows: Seq<Window>,
    focused_app: Seq<char>,
    icons: Map<Seq<char>, Seq<char>>,
)
    ensures
        groups_of(windows, focused_app, icons).len() == windows.filter(
            |w: Window| !is_accordion(w),
        ).len() + accordion_containers(windows).len(),
{
    lemma_item_count(windows, windows.len() as int, focused_app, icons);
    assert(windows.take(windows.len() as int) == windows);
}

/// Which containers the accordion windows among the first `n` are in, and how many items there
/// are for those windows.
proof fn lemma_item_count(
    windows: Seq<Window>,
    n: int,
    focused_app: Seq<char>,
    icons: Map<Seq<char>, Seq<char>>,
)
    requires
        0 <= n <= windows.len(),
    ensures
        accordion_containers(windows.take(n)).finite(),
        forall|id: Seq<char>| #[trigger]
            accordion_containers(windows.take(n)).contains(id) <==> shown_before(windows, n, id),
        groups_upto(windows, n, focused_app, icons).len() == windows.take(n).filter(
            |w: Window| !is_accordion(w),
        ).len() + accordion_containers(windows.take(n)).len(),
    decreases n,
{
    let alone = |w: Window| !is_accordion(w);
    let together = |w: Window| is_accordion(w);
    let id_of = |w: Window| w.container_id;
    let now = windows.take(n);
    let ids = now.filter(together).map_values(id_of);
    vstd::seq_lib::seq_to_set_is_finite(ids);
    if n == 0 {
        reveal(Seq::filter);
        assert(ids == Seq::<Seq<char>>::empty());
        assert(accordion_containers(now) == Set::<Seq<char>>::empty());
    } else {
        lemma_item_count(windows, n - 1, focused_app, icons);
        let earlier = windows.take(n - 1);
        let window = windows[n - 1];
        let ids_before = earlier.filter(together).map_values(id_of);
        assert(now == earlier.push(window));
        lemma_filter_push(earlier, window, alone);
        lemma_filter_push(earlier, window, together);
        assert forall|id: Seq<char>| #[trigger]
            shown_before(windows, n, id) == (shown_before(windows, n - 1, id) || (is_accordion(
                window,
            ) && window.container_id == id)) by {
            lemma_shown_before_step(windows, n, id);
        }
        if is_accordion(window) {
            assert(ids == ids_before.push(window.container_id));
            ids_before.lemma_push_to_set_commute(window.container_id);
            assert(accordion_containers(now) == accordion_containers(earlier).insert(
                window.container_id,
            ));
        } else {
            assert(accordion_containers(now) == accordion_containers(earlier));
        }
    }
}

/// Two filters that never keep the same take apart what a third keeps.
proof fn lemma_filter_parts(
    s: Seq<Window>,
    whole: spec_fn(Window) -> bool,
    one: spec_fn(Window) -> bool,
    other: spec_fn(Window) -> bool,
)
    requires
        forall|i: int|
            0 <= i < s.len() ==> whole(#[trigger] s[i]) == (one(s[i]) || other(s[i])) && !(one(s[i])
                && other(s[i])),
    ensures
        s.filter(whole).to_multiset() == s.filter(one).to_multiset().add(
            s.filter(other).to_multiset(),
        ),
    decreases s.len(),
{
    broadcast use vstd::seq_lib::group_to_multiset_ensures;
    if s.len() == 0 {
        reveal(Seq::filter);
        assert(s.filter(whole).to_multiset() =~= s.filter(one).to_multiset().add(
            s.filter(other).to_multiset(),
        ));
    } else {
        let start = s.drop_last();
        let last = s.last();
        assert(s == start.push(last));
        assert forall|i: int| 0 <= i < start.len() implies whole(#[trigger] start[i]) == (one(
            start[i],
        ) || other(start[i])) && !(one(start[i]) && other(start[i])) by {
            assert(start[i] == s[i]);
        }
        assert(whole(s[s.len() - 1]) == (one(last) || other(last)));
        lemma_filter_parts(start, whole, one, other);
        lemma_filter_push(start, last, whole);
        lemma_filter_push(start, last, one);
        lemma_filter_push(start, last, other);
        assert(s.filter(whole).to_multiset() =~= s.filter(one).to_multiset().add(
            s.filter(other).to_multiset(),
        ));
    }
}

/// Which windows the items for the first `n` windows show: those of them that are in no accordion,
/// and all in the accordions among them.
proof fn lemma_members(windows: Seq<Window>, n: int)
    requires
        containers_uniform(windows),
        0 <= n <= windows.len(),
    ensures
        shown_upto(windows, n).flatten().to_multiset() == windows.take(n).filter(
            |w: Window| !is_accordion(w),
        ).to_multiset().add(
            windows.filter(
                |w: Window| is_accordion(w) && shown_before(windows, n, w.container_id),
            ).to_multiset(),
        ),
    decreases n,
{
    broadcast use vstd::seq_lib::group_to_multiset_ensures;
    let alone = |w: Window| !is_accordion(w);
    let shown = |w: Window| is_accordion(w) && shown_before(windows, n, w.container_id);
    if n == 0 {
        let never = |w: Window| false;
        lemma_filter_parts(windows, shown, never, never);
        lemma_filter_none(windows, never);
        reveal(Seq::filter);
        assert(windows.take(0).filter(alone) == Seq::<Window>::empty());
        assert(shown_upto(windows, 0).flatten().to_multiset() =~= windows.take(0).filter(
            alone,
        ).to_multiset().add(windows.filter(shown).to_multiset()));
    } else {
        let window = windows[n - 1];
        let shown_earlier = |w: Window|
            is_accordion(w) && shown_before(windows, n - 1, w.container_id);
        let before = shown_upto(windows, n - 1);
        lemma_members(windows, n - 1);
        before.lemma_flatten_push(seq![window]);
        before.lemma_flatten_push(in_container(windows, window.container_id));
        assert(windows.take(n) == windows.take(n - 1).push(window));
        lemma_filter_push(windows.take(n - 1), window, alone);
        assert forall|id: Seq<char>| #[trigger]
            shown_before(windows, n, id) == (shown_before(windows, n - 1, id) || (is_accordion(
                window,
            ) && window.container_id == id)) by {
            lemma_shown_before_step(windows, n, id);
        }
        let inside = |w: Window| w.container_id == window.container_id;
        if is_accordion(window) && !shown_before(windows, n - 1, window.container_id) {
            assert forall|i: int| 0 <= i < windows.len() implies shown(#[trigger] windows[i]) == (
            shown_earlier(windows[i]) || inside(windows[i])) && !(shown_earlier(windows[i])
                && inside(windows[i])) by {
                assert(inside(windows[i]) ==> is_accordion(windows[i]) == is_accordion(
                    windows[n - 1],
                ));
            }
            lemma_filter_parts(windows, shown, shown_earlier, inside);
            lemma_add_multiset(before.flatten(), in_container(windows, window.container_id));
            assert(shown_upto(windows, n).flatten().to_multiset() =~= windows.take(n).filter(
                alone,
            ).to_multiset().add(windows.filter(shown).to_multiset()));
        } else {
            let never = |w: Window| false;
            lemma_filter_parts(windows, shown, shown_earlier, never);
            lemma_filter_none(windows, never);
            assert(before.flatten() + seq![window] == before.flatten().push(window));
            assert(shown_upto(windows, n).flatten().to_multiset() =~= windows.take(n).filter(
                alone,
            ).to_multiset().add(windows.filter(shown).to_multiset()));
        }
    }
}

/// What one more window adds to the containers shown.
proof fn lemma_shown_before_step(windows: Seq<Window>, n: int, id: Seq<char>)
    requires
        0 < n <= windows.len(),
    ensures
        shown_before(windows, n, id) == (shown_before(windows, n - 1, id) || (is_accordion(
            windows[n - 1],
        ) && windows[n - 1].container_id == id)),
{
    if shown_before(windows, n - 1, id) {
        let i = choose|i: int|
            0 <= i < n - 1 && is_accordion(#[trigger] windows[i]) && windows[i].container_id == id;
        assert(is_accordion(windows[i]) && windows[i].container_id == id);
    }
    if shown_before(windows, n, id) {
        let i = choose|i: int|
            0 <= i < n && is_accordion(#[trigger] windows[i]) && windows[i].container_id == id;
        if i < n - 1 {
            assert(shown_before(windows, n - 1, id));
        }
    }
}

/// A filter that keeps nothing leaves nothing.
proof fn lemma_filter_none(s: Seq<Window>, keep: spec_fn(Window) -> bool)
    requires
        forall|w: Window| !(#[trigger] keep(w)),
    ensures
        s.filter(keep) == Seq::<Window>::empty(),
    decreases s.len(),
{
    reveal(Seq::filter);
    if s.len() > 0 {
        lemma_filter_none(s.drop_last(), keep);
    }
}

/// The members of two sequences, one after the other.
proof fn lemma_add_multiset(a: Seq<Window>, b: Seq<Window>)
    ensures
        (a + b).to_multiset() == a.to_multiset().add(b.to_multiset()),
    decreases b.len(),
{
    broadcast use vstd::seq_lib::group_to_multiset_ensures;
    if b.len() == 0 {
        assert(a + b == a);
        assert(a.to_multiset() =~= a.to_multiset().add(b.to_multiset()));
    } else {
        let start = b.drop_last();
        assert(b == start.push(b.last()));
        assert(a + b == (a + start).push(b.last()));
        lemma_add_multiset(a, start);
        assert((a + b).to_multiset() =~= a.to_multiset().add(b.to_multiset()));
    }
}

/// Where the windows of a container are all in an accordion or none is, each window is shown once:
/// on one item, by one icon.
pub proof fn law_each_window_shown_once(
    windows: Seq<Window>,
    focused_app: Seq<char>,
    icons: Map<Seq<char>, Seq<char>>,
)
    requires
        containers_uniform(windows),
    ensures
        shown_on(windows).flatten().to_multiset() == windows.to_multiset(),
        groups_of(windows, focused_app, icons).len() == shown_on(windows).len(),
        forall|i: int|
            0 <= i < shown_on(windows).len() ==> (#[trigger] groups_of(
                windows,
                focused_app,
                icons,
            )[i]).icons == icons_of(shown_on(windows)[i], icons),
{
    broadcast use vstd::seq_lib::group_to_multiset_ensures;
    let n = windows.len() as int;
    law_items_show_windows(windows, n, focused_app, icons);
    lemma_members(windows, n);
    let alone = |w: Window| !is_accordion(w);
    let shown = |w: Window| is_accordion(w) && shown_before(windows, n, w.container_id);
    let every = |w: Window| true;
    assert(windows.take(n) == windows);
    assert forall|i: int| 0 <= i < windows.len() implies every(#[trigger] windows[i]) == (alone(
        windows[i],
    ) || shown(windows[i])) && !(alone(windows[i]) && shown(windows[i])) by {
        if is_accordion(windows[i]) {
            assert(shown_before(windows, n, windows[i].container_id));
        }
    }
    lemma_filter_parts(windows, every, alone, shown);
    lemma_filter_all(windows, every);
}

/// A filter that keeps everything changes nothing.
proof fn lemma_filter_all(s: Seq<Window>, keep: spec_fn(Window) -> bool)
    requires
        forall|w: Window| #[trigger] keep(w),
    ensures
        s.filter(keep) == s,
    decreases s.len(),
{
    reveal(Seq::filter);
    if s.len() > 0 {
        lemma_filter_all(s.drop_last(), keep);
        assert(s == s.drop_last().push(s.last()));
    }
}

} // verus!
