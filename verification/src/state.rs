//! What the helper remembers from one event to the next.

use std::sync::Arc;

use vstd::hash_map::StringHashMap;
use vstd::prelude::*;

use crate::icons::IconMap;
use crate::text::texts;

verus! {

/// How long an event of a kind keeps the next ones of that kind from being processed, in
/// nanoseconds.
pub const DEBOUNCE_NANOS: u64 = 150_000_000;

/// How many child processes may run at once before further ones are dropped.
pub const MAX_CHILD_PROCS: usize = 20;

/// The bar items of a workspace.
pub struct SpaceItems {
    pub space: String,
    pub names: Vec<String>,
}

/// What the bar items of a workspace are.
#[verifier::ext_equal]
pub struct Space {
    pub space: Seq<char>,
    pub names: Seq<Seq<char>>,
}

impl View for SpaceItems {
    type V = Space;

    open spec fn view(&self) -> Space {
        Space { space: self.space@, names: texts(self.names@) }
    }
}

/// What the bar items of some workspaces are.
pub open spec fn spaces_view(list: Seq<SpaceItems>) -> Seq<Space> {
    list.map_values(|items: SpaceItems| items@)
}

/// Whether no workspace is listed twice.
pub open spec fn spaces_differ(list: Seq<Space>) -> bool {
    forall|i: int, j: int|
        0 <= i < j < list.len() ==> (#[trigger] list[i]).space != (#[trigger] list[j]).space
}

/// The bar items that the helper remembers.
struct RememberedItems {
    list: Vec<SpaceItems>,
}

impl RememberedItems {
    /// No workspace is remembered twice.
    #[verifier::type_invariant]
    spec fn once_each(self) -> bool {
        spaces_differ(spaces_view(self.list@))
    }
}

/// The state of the helper.
pub struct HelperState {
    last_event_times: StringHashMap<u64>,
    child_count: usize,
    icon_map: Arc<IconMap>,
    sketchybar_items: RememberedItems,
    sketchybar_enabled: bool,
}

/// What the helper remembers.
#[verifier::ext_equal]
pub struct State {
    /// When an event of each kind was last processed.
    pub event_times: Map<Seq<char>, u64>,
    /// How many child processes run.
    pub child_count: usize,
    /// The icons of applications.
    pub icons: Map<Seq<char>, Seq<char>>,
    /// The bar items of the last update.
    pub items: Seq<Space>,
    /// Whether there is a bar to update.
    pub enabled: bool,
}

impl View for HelperState {
    type V = State;

    closed spec fn view(&self) -> State {
        State {
            event_times: self.last_event_times@,
            child_count: self.child_count,
            icons: self.icon_map@,
            items: spaces_view(self.sketchybar_items.list@),
            enabled: self.sketchybar_enabled,
        }
    }
}

/// What an update of the bar starts from.
pub struct BarSnapshot {
    pub icons: Arc<IconMap>,
    pub items: Vec<SpaceItems>,
}

/// The time from `earlier` to `later`, none where `later` is not later.
pub open spec fn elapsed(later: u64, earlier: u64) -> int {
    if later >= earlier {
        later - earlier
    } else {
        0
    }
}

/// Whether an event of the kind `key` at `now` is to be processed.
pub open spec fn is_due(times: Map<Seq<char>, u64>, key: Seq<char>, now: u64) -> bool {
    times.dom().contains(key) ==> elapsed(now, times[key]) >= DEBOUNCE_NANOS
}

/// The times after an event of the kind `key` at `now`.
pub open spec fn times_after(times: Map<Seq<char>, u64>, key: Seq<char>, now: u64) -> Map<
    Seq<char>,
    u64,
> {
    if is_due(times, key, now) {
        times.insert(key, now)
    } else {
        times
    }
}

/// The time from `earlier` to `later`, none where `later` is not later.
pub fn time_since(later: u64, earlier: u64) -> (nanos: u64)
    ensures
        nanos == elapsed(later, earlier),
{
    if later >= earlier {
        later - earlier
    } else {
        0
    }
}

/// Calls `Arc::clone`, which gives another pointer to the same value.
#[verifier::external_body]
fn share(icons: &Arc<IconMap>) -> (shared: Arc<IconMap>)
    ensures
        shared == *icons,
{
    Arc::clone(icons)
}

/// A copy of a list of names.
fn copy_names(names: &Vec<String>) -> (copy: Vec<String>)
    ensures
        texts(copy@) == texts(names@),
{
    let mut copy: Vec<String> = Vec::new();
    let mut i: usize = 0;
    while i < names.len()
        invariant
            i <= names.len(),
            texts(copy@) == texts(names@).take(i as int),
        decreases names.len() - i,
    {
        let ghost before = texts(copy@);
        let name = names[i].clone();
        copy.push(name);
        assert(texts(copy@) == before.push(name@));
        assert(texts(names@)[i as int] == name@);
        assert(texts(names@).take(i + 1) == texts(names@).take(i as int).push(name@));
        i += 1;
    }
    assert(texts(names@).take(i as int) == texts(names@));
    copy
}

/// A copy of the bar items of some workspaces.
fn copy_items(items: &Vec<SpaceItems>) -> (copy: Vec<SpaceItems>)
    ensures
        spaces_view(copy@) == spaces_view(items@),
{
    let mut copy: Vec<SpaceItems> = Vec::new();
    let mut i: usize = 0;
    while i < items.len()
        invariant
            i <= items.len(),
            spaces_view(copy@) == spaces_view(items@).take(i as int),
        decreases items.len() - i,
    {
        let ghost before = spaces_view(copy@);
        let one = SpaceItems { space: items[i].space.clone(), names: copy_names(&items[i].names) };
        copy.push(one);
        assert(spaces_view(copy@) == before.push(one@));
        assert(spaces_view(items@)[i as int] == one@);
        assert(spaces_view(items@).take(i + 1) == spaces_view(items@).take(i as int).push(one@));
        i += 1;
    }
    assert(spaces_view(items@).take(i as int) == spaces_view(items@));
    copy
}

impl HelperState {
    /// The state at the start: no event processed, no child running, no item on the bar.
    pub fn new(icon_map: IconMap, sketchybar_enabled: bool) -> (state: HelperState)
        ensures
            state@ == (State {
                event_times: Map::<Seq<char>, u64>::empty(),
                child_count: 0,
                icons: icon_map@,
                items: Seq::<Space>::empty(),
                enabled: sketchybar_enabled,
            }),
    {
        let state = HelperState {
            last_event_times: StringHashMap::new(),
            child_count: 0,
            icon_map: Arc::new(icon_map),
            sketchybar_items: RememberedItems { list: Vec::new() },
            sketchybar_enabled,
        };
        assert(spaces_view(state.sketchybar_items.list@) == Seq::<Space>::empty());
        state
    }

    /// Whether an event of the kind `event_key`, at the time `now`, is to be processed. It is
    /// not where one of that kind was processed a short time ago. Times are in nanoseconds from
    /// a fixed start.
    pub fn should_process(&mut self, event_key: &str, now: u64) -> (due: bool)
        ensures
            due == is_due(old(self)@.event_times, event_key@, now),
            final(self)@ == (State {
                event_times: times_after(old(self)@.event_times, event_key@, now),
                ..old(self)@
            }),
    {
        if let Some(last) = self.last_event_times.get(event_key) {
            if time_since(now, *last) < DEBOUNCE_NANOS {
                return false;
            }
        }
        self.last_event_times.insert(event_key.to_owned(), now);
        true
    }

    /// Whether another child process may be started.
    pub fn may_spawn(&self) -> (yes: bool)
        ensures
            yes == (self@.child_count < MAX_CHILD_PROCS),
    {
        self.child_count < MAX_CHILD_PROCS
    }

    /// How many child processes run.
    pub fn child_count(&self) -> (n: usize)
        ensures
            n == self@.child_count,
    {
        self.child_count
    }

    /// Notes whether a child process that may run was started, and says so.
    pub fn child_spawned(&mut self, started: bool) -> (spawned: bool)
        requires
            old(self)@.child_count < usize::MAX,
        ensures
            spawned == started,
            final(self)@ == (State {
                child_count: if started {
                    (old(self)@.child_count + 1) as usize
                } else {
                    old(self)@.child_count
                },
                ..old(self)@
            }),
            old(self)@.child_count < MAX_CHILD_PROCS ==> final(self)@.child_count == count_after(
                old(self)@.child_count as int,
                ChildEvent::Asked { starts: started },
            ),
    {
        if started {
            self.child_count = self.child_count + 1;
        }
        started
    }

    /// Notes that a child process has ended.
    pub fn child_reaped(&mut self)
        ensures
            final(self)@ == (State {
                child_count: count_after(old(self)@.child_count as int, ChildEvent::Ended) as usize,
                ..old(self)@
            }),
    {
        if self.child_count > 0 {
            self.child_count = self.child_count - 1;
        }
    }

    /// Replaces the icons.
    pub fn set_icon_map(&mut self, icon_map: IconMap)
        ensures
            final(self)@ == (State { icons: icon_map@, ..old(self)@ }),
    {
        self.icon_map = Arc::new(icon_map);
    }

    /// The icons, and the items of the last update, where there is a bar to update. No workspace
    /// is listed twice.
    pub fn bar_snapshot(&self) -> (snapshot: Option<BarSnapshot>)
        ensures
            snapshot is Some <==> self@.enabled,
            snapshot matches Some(taken) ==> taken.icons@ == self@.icons && spaces_view(
                taken.items@,
            ) == self@.items && spaces_differ(self@.items),
    {
        proof {
            use_type_invariant(&self.sketchybar_items);
        }
        if !self.sketchybar_enabled {
            return None;
        }
        Some(
            BarSnapshot {
                icons: share(&self.icon_map),
                items: copy_items(&self.sketchybar_items.list),
            },
        )
    }

    /// Remembers the items of an update, which lists no workspace twice.
    pub fn set_items(&mut self, items: Vec<SpaceItems>)
        requires
            spaces_differ(spaces_view(items@)),
        ensures
            final(self)@ == (State { items: spaces_view(items@), ..old(self)@ }),
    {
        self.sketchybar_items = RememberedItems { list: items };
    }
}

/// Of two events of a kind that are both processed, the later comes no less than the debounce
/// time after the earlier, whatever events of whatever kind come between, and at whatever times.
pub proof fn law_processed_apart(
    times: Map<Seq<char>, u64>,
    key: Seq<char>,
    first: u64,
    between: Seq<(Seq<char>, u64)>,
    second: u64,
)
    requires
        is_due(times, key, first),
        is_due(times_after_all(times_after(times, key, first), between), key, second),
    ensures
        elapsed(second, first) >= DEBOUNCE_NANOS,
{
    lemma_last_not_before(times_after(times, key, first), key, first, between);
}

/// The times after a series of events, each a kind and a time.
pub open spec fn times_after_all(
    times: Map<Seq<char>, u64>,
    events: Seq<(Seq<char>, u64)>,
) -> Map<Seq<char>, u64>
    decreases events.len(),
{
    if events.len() == 0 {
        times
    } else {
        times_after(times_after_all(times, events.drop_last()), events.last().0, events.last().1)
    }
}

/// Once an event of a kind was processed at `first`, later events leave its time at `first` or
/// later.
proof fn lemma_last_not_before(
    times: Map<Seq<char>, u64>,
    key: Seq<char>,
    first: u64,
    events: Seq<(Seq<char>, u64)>,
)
    requires
        times.dom().contains(key),
        times[key] >= first,
    ensures
        times_after_all(times, events).dom().contains(key),
        times_after_all(times, events)[key] >= first,
    decreases events.len(),
{
    if events.len() > 0 {
        lemma_last_not_before(times, key, first, events.drop_last());
    }
}

/// An event that is not processed leaves no trace: it does not put off the next one.
pub proof fn law_debounced_leaves_no_trace(times: Map<Seq<char>, u64>, key: Seq<char>, now: u64)
    requires
        !is_due(times, key, now),
    ensures
        times_after(times, key, now) == times,
{
}

/// Events of one kind do not hold up those of another.
pub proof fn law_kinds_apart(
    times: Map<Seq<char>, u64>,
    key: Seq<char>,
    now: u64,
    other: Seq<char>,
    then: u64,
)
    requires
        key != other,
    ensures
        is_due(times_after(times, key, now), other, then) == is_due(times, other, then),
{
}

/// What happens to child processes.
pub enum ChildEvent {
    /// One is asked for, and if it may run, it is started or fails to start.
    Asked { starts: bool },
    /// One has ended.
    Ended,
}

/// How many child processes run after an event, where `count` ran before it.
pub open spec fn count_after(count: int, event: ChildEvent) -> int {
    match event {
        ChildEvent::Asked { starts } => if count < MAX_CHILD_PROCS && starts {
            count + 1
        } else {
            count
        },
        ChildEvent::Ended => if count > 0 {
            count - 1
        } else {
            0
        },
    }
}

/// How many child processes run after a series of events.
pub open spec fn count_after_all(count: int, events: Seq<ChildEvent>) -> int
    decreases events.len(),
{
    if events.len() == 0 {
        count
    } else {
        count_after(count_after_all(count, events.drop_last()), events.last())
    }
}

/// Whatever is asked for and whatever ends, one after another, there are never more child
/// processes than may run.
pub proof fn law_child_limit(count: int, events: Seq<ChildEvent>)
    requires
        0 <= count <= MAX_CHILD_PROCS,
    ensures
        0 <= count_after_all(count, events) <= MAX_CHILD_PROCS,
    decreases events.len(),
{
    if events.len() > 0 {
        law_child_limit(count, events.drop_last());
    }
}

/// How many child processes a series of events starts: one for each that is asked for when it may
/// run, and does not fail to start.
pub open spec fn started_in(count: int, events: Seq<ChildEvent>) -> int
    decreases events.len(),
{
    if events.len() == 0 {
        0
    } else {
        let before = started_in(count, events.drop_last());
        match events.last() {
            ChildEvent::Asked { starts } => if starts && count_after_all(count, events.drop_last())
                < MAX_CHILD_PROCS {
                before + 1
            } else {
                before
            },
            ChildEvent::Ended => before,
        }
    }
}

/// How many child processes end in a series of events.
pub open spec fn ended_in(events: Seq<ChildEvent>) -> int
    decreases events.len(),
{
    if events.len() == 0 {
        0
    } else if events.last() is Ended {
        ended_in(events.drop_last()) + 1
    } else {
        ended_in(events.drop_last())
    }
}

/// The child processes that run are those that ran before and those that were started since, less
/// those that have ended, provided that none ends that does not run.
pub proof fn law_child_count(count: int, events: Seq<ChildEvent>)
    requires
        forall|n: int|
            0 <= n <= events.len() ==> ended_in(#[trigger] events.take(n)) <= count + started_in(
                count,
                events.take(n),
            ),
    ensures
        count_after_all(count, events) == count + started_in(count, events) - ended_in(events),
    decreases events.len(),
{
    if events.len() > 0 {
        let start = events.drop_last();
        assert forall|n: int| 0 <= n <= start.len() implies ended_in(#[trigger] start.take(n))
            <= count + started_in(count, start.take(n)) by {
            assert(start.take(n) == events.take(n));
        }
        law_child_count(count, start);
        assert(events.take(events.len() as int) == events);
    }
}

/// A child process that was started and has ended makes no difference.
pub proof fn law_ended_child_uncounted(count: int)
    requires
        0 <= count < MAX_CHILD_PROCS,
    ensures
        count_after(
            count_after(count, ChildEvent::Asked { starts: true }),
            ChildEvent::Ended,
        ) == count,
{
}

/// An event is to be processed where none of its kind was, and where the last one that was is the
/// debounce time ago or longer; a clock that has gone back counts as no time.
pub proof fn law_when_due(times: Map<Seq<char>, u64>, key: Seq<char>, now: u64)
    ensures
        is_due(times, key, now) <==> !times.dom().contains(key) || now >= times[key] + 150_000_000,
        times.dom().contains(key) && now < times[key] ==> elapsed(now, times[key]) == 0,
        times.dom().contains(key) && now >= times[key] ==> times[key] + elapsed(now, times[key])
            == now,
{
}

/// The time of an event that is processed is kept for its kind, that of one that is not is not,
/// and the times of other kinds stay as they are.
pub proof fn law_times_kept(
    times: Map<Seq<char>, u64>,
    key: Seq<char>,
    now: u64,
    other: Seq<char>,
)
    ensures
        !times.dom().contains(key) || now >= times[key] + 150_000_000 ==> times_after(
            times,
            key,
            now,
        ).dom().contains(key) && times_after(times, key, now)[key] == now,
        times.dom().contains(key) && now < times[key] + 150_000_000 ==> times_after(times, key, now)
            == times,
        other != key ==> times_after(times, key, now).dom().contains(other)
            == times.dom().contains(other) && times_after(times, key, now)[other] == times[other],
{
}

/// A child process that is asked for runs where fewer than twenty do and it does not fail to
/// start; one that ends no longer counts.
pub proof fn law_child_steps(count: int)
    requires
        0 <= count <= 20,
    ensures
        count < 20 ==> count_after(count, ChildEvent::Asked { starts: true }) == count + 1,
        count_after(20, ChildEvent::Asked { starts: true }) == 20,
        count_after(count, ChildEvent::Asked { starts: false }) == count,
        count > 0 ==> count_after(count, ChildEvent::Ended) == count - 1,
        count_after(0, ChildEvent::Ended) == 0,
{
}

} // verus!
