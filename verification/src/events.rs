//! What the helper hears, and what it makes of it.

use vstd::prelude::*;

use crate::state::{elapsed, is_due, time_since, times_after, DEBOUNCE_NANOS, HelperState, State};
use crate::text::{
    chain, contains, has_part, has_start, lemma_pieces_nonempty, lines_of, list_of, listed,
    opt_text, pieces, same, starts_with, text_or_empty, texts, trim, trimmed,
};
use crate::text_laws::law_start_found;

verus! {

/// How long after a reload of the icons further changes of their file are passed over, in
/// nanoseconds.
pub const RELOAD_NANOS: u64 = 500_000_000;

/// The message for an update of the focused workspace after a change of focus or layout.
pub const FOCUS_MESSAGE: &'static str = "__focus__";

/// The message for an update of the focused workspace after a change of what is visible.
pub const VISIBILITY_MESSAGE: &'static str = "__visibility__";

/// An event that AeroSpace reports.
pub struct SubscribeEvent {
    pub event: String,
    pub workspace: Option<String>,
    pub binding: Option<String>,
}

/// What an event says.
#[verifier::ext_equal]
pub struct Event {
    pub event: Seq<char>,
    pub workspace: Option<Seq<char>>,
    pub binding: Option<Seq<char>>,
}

impl View for SubscribeEvent {
    type V = Event;

    open spec fn view(&self) -> Event {
        Event {
            event: self.event@,
            workspace: opt_text(self.workspace),
            binding: opt_text(self.binding),
        }
    }
}

/// The events to subscribe to.
pub open spec fn subscriptions() -> Seq<Seq<char>> {
    seq![
        "subscribe"@,
        "focused-workspace-changed"@,
        "focus-changed"@,
        "focused-monitor-changed"@,
        "binding-triggered"@,
        "window-detected"@,
    ]
}

/// How to subscribe to events.
pub fn subscribe_args() -> (args: Vec<String>)
    ensures
        texts(args@) == subscriptions(),
{
    let args = list_of(
        &[
            "subscribe",
            "focused-workspace-changed",
            "focus-changed",
            "focused-monitor-changed",
            "binding-triggered",
            "window-detected",
        ],
    );
    assert(texts(args@) == subscriptions());
    args
}

/// The key bindings that change the layout, and of which no other event tells.
pub open spec fn layout_bindings() -> Seq<Seq<char>> {
    seq![
        "alt-shift-h"@,
        "alt-shift-j"@,
        "alt-shift-k"@,
        "alt-shift-l"@,
        "alt-shift-comma"@,
        "alt-shift-period"@,
        "alt-shift-u"@,
        "alt-shift-i"@,
        "alt-o"@,
        "alt-r"@,
    ]
}

/// Whether a key binding changes the layout.
pub fn is_layout_binding(binding: &str) -> (yes: bool)
    ensures
        yes == layout_bindings().contains(binding@),
{
    let list = list_of(
        &[
            "alt-shift-h",
            "alt-shift-j",
            "alt-shift-k",
            "alt-shift-l",
            "alt-shift-comma",
            "alt-shift-period",
            "alt-shift-u",
            "alt-shift-i",
            "alt-o",
            "alt-r",
        ],
    );
    assert(texts(list@) == layout_bindings());
    listed(&list, binding)
}

/// What an event calls for.
pub enum Wish {
    /// Nothing.
    Nothing,
    /// An update for the workspace that it names, at once.
    Show(Seq<char>),
    /// An update for the focused workspace, unless there was one a short time ago.
    Refresh,
}

/// What an event calls for: a change of workspace an update for the new one, a change of focus or
/// of monitor and a new window an update, and so does a key binding that changes the layout.
pub open spec fn wish_of(event: Event) -> Wish {
    if event.event == "focused-workspace-changed"@ {
        match event.workspace {
            Some(workspace) => Wish::Show(workspace),
            None => Wish::Refresh,
        }
    } else if event.event == "focus-changed"@ || event.event == "focused-monitor-changed"@
        || event.event == "window-detected"@ {
        Wish::Refresh
    } else if event.event == "binding-triggered"@ && event.binding is Some
        && layout_bindings().contains(event.binding->0) {
        Wish::Refresh
    } else {
        Wish::Nothing
    }
}

/// The message to the worker that an event at `now` leads to, given when events of each kind were
/// last processed.
pub open spec fn message_of(event: Event, times: Map<Seq<char>, u64>, now: u64) -> Option<
    Seq<char>,
> {
    match wish_of(event) {
        Wish::Nothing => None,
        Wish::Show(workspace) => Some(workspace),
        Wish::Refresh => if is_due(times, "focus"@, now) {
            Some(FOCUS_MESSAGE@)
        } else {
            None
        },
    }
}

/// The times after an event at `now`.
pub open spec fn times_after_event(
    event: Event,
    times: Map<Seq<char>, u64>,
    now: u64,
) -> Map<Seq<char>, u64> {
    match wish_of(event) {
        Wish::Refresh => times_after(times, "focus"@, now),
        _ => times,
    }
}

/// The message for an update of the focused workspace, unless there was one a short time ago.
fn refresh(state: &mut HelperState, now: u64) -> (message: Option<String>)
    ensures
        opt_text(message) == if is_due(old(state)@.event_times, "focus"@, now) {
            Some(FOCUS_MESSAGE@)
        } else {
            None
        },
        final(state)@ == (State {
            event_times: times_after(old(state)@.event_times, "focus"@, now),
            ..old(state)@
        }),
{
    if state.should_process("focus", now) {
        Some(FOCUS_MESSAGE.to_owned())
    } else {
        None
    }
}

/// Decides what an event at `now` leads to: a message to the worker, or nothing.
pub fn route_event(event: SubscribeEvent, state: &mut HelperState, now: u64) -> (message: Option<
    String,
>)
    ensures
        opt_text(message) == message_of(event@, old(state)@.event_times, now),
        final(state)@ == (State {
            event_times: times_after_event(event@, old(state)@.event_times, now),
            ..old(state)@
        }),
{
    let kind = event.event.as_str();
    if same(kind, "focused-workspace-changed") {
        match event.workspace {
            Some(workspace) => Some(workspace),
            None => refresh(state, now),
        }
    } else if same(kind, "focus-changed") || same(kind, "focused-monitor-changed") || same(
        kind,
        "window-detected",
    ) {
        refresh(state, now)
    } else if same(kind, "binding-triggered") {
        match &event.binding {
            Some(binding) => if is_layout_binding(binding.as_str()) {
                refresh(state, now)
            } else {
                None
            },
            None => None,
        }
    } else {
        None
    }
}

/// What to read an event from: the line without the white space around it, unless it is blank.
pub fn event_text<'a>(line: &'a str) -> (text: Option<&'a str>)
    ensures
        text is Some <==> trimmed(line@).len() > 0,
        text matches Some(text) ==> text@ == trimmed(line@),
{
    let text = trim(line);
    if text.is_empty() {
        None
    } else {
        Some(text)
    }
}

/// How it stands with the stream of events.
pub enum StreamEvent {
    /// There is none, and it is time to open one.
    Ready,
    /// The command that should have opened one could not be started.
    NotStarted,
    /// The command has no output to read from.
    NoOutput,
    /// It has come to its end.
    Ended,
}

/// What to do about the stream of events.
pub enum StreamAction {
    /// Nothing more.
    Stop,
    /// Open one.
    Connect,
    /// Be ready again after so many milliseconds.
    Wait(u64),
}

/// Decides what to do about the stream of events, which is opened again whenever it ends, until
/// the helper shuts down.
pub fn subscribe_loop(event: StreamEvent, shutdown: bool) -> (action: StreamAction)
    ensures
        action == match event {
            StreamEvent::Ready => if shutdown {
                StreamAction::Stop
            } else {
                StreamAction::Connect
            },
            StreamEvent::NotStarted | StreamEvent::NoOutput => StreamAction::Wait(2000),
            StreamEvent::Ended => if shutdown {
                StreamAction::Stop
            } else {
                StreamAction::Wait(1000)
            },
        },
        action is Stop ==> shutdown,
        action is Connect <==> event is Ready && !shutdown,
        shutdown && (event is Ready || event is Ended) ==> action is Stop,
        action matches StreamAction::Wait(millis) ==> !(event is Ready) && millis == (
        if event is Ended {
            1000u64
        } else {
            2000u64
        }),
{
    match event {
        StreamEvent::Ready => if shutdown {
            StreamAction::Stop
        } else {
            StreamAction::Connect
        },
        StreamEvent::NotStarted | StreamEvent::NoOutput => StreamAction::Wait(2000),
        StreamEvent::Ended => if shutdown {
            StreamAction::Stop
        } else {
            StreamAction::Wait(1000)
        },
    }
}

/// The message to the worker that a line from the socket leads to. Any line is a nudge; there is
/// none where it could not be read.
pub fn nudge_message(line: Option<&str>) -> (message: Option<String>)
    ensures
        opt_text(message) == if line is Some {
            Some(VISIBILITY_MESSAGE@)
        } else {
            None
        },
{
    match line {
        Some(_) => Some(VISIBILITY_MESSAGE.to_owned()),
        None => None,
    }
}

/// What to send to the socket for an event, if one is given: a line of its own.
pub fn nudge_text(event: Option<&str>) -> (text: Option<String>)
    ensures
        opt_text(text) == if event is Some && event->0@.len() > 0 {
            Some(event->0@ + "\n"@)
        } else {
            None
        },
        text is Some <==> event is Some && event->0@.len() > 0,
        text matches Some(text) ==> text@.len() == event->0@.len() + 1 && text@.drop_last()
            == event->0@ && text@.last() == '\n',
{
    proof {
        reveal_strlit("\n");
    }
    match event {
        Some(event) => if event.is_empty() {
            None
        } else {
            Some(chain(event, "\n"))
        },
        None => None,
    }
}

/// Whether a message names no workspace, and stands for the focused one.
pub open spec fn is_sentinel(message: Seq<char>) -> bool {
    has_start(message, "__"@)
}

/// The workspace that a message calls to show: the one it names, or the one that has the focus
/// according to the reply.
pub open spec fn workspace_shown(message: Seq<char>, reply: Seq<char>) -> Seq<char> {
    if is_sentinel(message) {
        reply
    } else {
        message
    }
}

/// What to ask before a message is acted on: which workspace has the focus, where it names none.
pub fn focus_query(message: &str) -> (args: Option<Vec<String>>)
    ensures
        args is Some <==> is_sentinel(message@),
        args matches Some(args) ==> texts(args@) == seq![
            "list-workspaces"@,
            "--focused"@,
        ],
{
    if starts_with(message, "__") {
        let args = list_of(&["list-workspaces", "--focused"]);
        assert(texts(args@) == seq!["list-workspaces"@, "--focused"@]);
        Some(args)
    } else {
        None
    }
}

/// The workspace that a message calls to show: the one it names, or the one that has the focus
/// according to the reply, if there is one.
pub fn focused_workspace(message: String, reply: Option<String>) -> (workspace: String)
    ensures
        workspace@ == workspace_shown(message@, text_or_empty(reply)),
{
    if starts_with(message.as_str(), "__") {
        match reply {
            Some(workspace) => workspace,
            None => String::new(),
        }
    } else {
        message
    }
}

/// Whether a change in the file system at `now` calls for a look at what changed: not where it
/// neither made nor altered a file, nor a short time after the last reload.
pub fn reload_due(made_or_altered: bool, now: u64, last_reload: u64) -> (due: bool)
    ensures
        due == (made_or_altered && elapsed(now, last_reload) >= RELOAD_NANOS),
        due <==> made_or_altered && now >= last_reload + 500_000_000,
{
    made_or_altered && time_since(now, last_reload) >= RELOAD_NANOS
}

/// Whether a path is one of the file that lists the icons. There is no path where it is no text.
pub fn is_icon_map(path: Option<&str>) -> (yes: bool)
    ensures
        yes == (path is Some && has_part(path->0@, "icon_map.toml"@)),
{
    match path {
        Some(path) => contains(path, "icon_map.toml"),
        None => false,
    }
}

/// An application that runs.
pub struct RunningApp {
    pub hidden: bool,
    pub bundle_id: Option<String>,
}

/// The bundles of the applications that are hidden and have one.
pub open spec fn hidden_bundles(apps: Seq<RunningApp>) -> Seq<Seq<char>>
    decreases apps.len(),
{
    if apps.len() == 0 {
        Seq::empty()
    } else {
        let before = hidden_bundles(apps.drop_last());
        match apps.last().bundle_id {
            Some(bundle) if apps.last().hidden => before.push(bundle@),
            _ => before,
        }
    }
}

/// The bundles of the hidden applications.
pub fn get_hidden_bundle_ids(apps: &Vec<RunningApp>) -> (bundles: Vec<String>)
    ensures
        texts(bundles@) == hidden_bundles(apps@),
{
    let mut bundles: Vec<String> = Vec::new();
    let mut i: usize = 0;
    while i < apps.len()
        invariant
            i <= apps.len(),
            texts(bundles@) == hidden_bundles(apps@.take(i as int)),
        decreases apps.len() - i,
    {
        assert(apps@.take(i + 1).drop_last() == apps@.take(i as int));
        let ghost before = texts(bundles@);
        if apps[i].hidden {
            if let Some(bundle) = &apps[i].bundle_id {
                bundles.push(bundle.clone());
                assert(texts(bundles@) == before.push(bundle@));
            }
        }
        i += 1;
    }
    assert(apps@.take(i as int) == apps@);
    bundles
}

/// A change of workspace leads to an update for it at once, however soon after another, and is
/// not counted among the updates that hold up further ones.
pub proof fn law_workspace_change_never_held_up(
    event: Event,
    times: Map<Seq<char>, u64>,
    now: u64,
)
    requires
        event.event == "focused-workspace-changed"@,
        event.workspace is Some,
    ensures
        message_of(event, times, now) == event.workspace,
        times_after_event(event, times, now) == times,
{
}

/// All updates of the focused workspace hold each other up: once an event has led to one, no
/// event leads to another until the debounce time is over.
pub proof fn law_refreshes_share_a_window(
    first: Event,
    second: Event,
    times: Map<Seq<char>, u64>,
    now: u64,
    later: u64,
)
    requires
        wish_of(first) is Refresh,
        message_of(first, times, now) is Some,
        wish_of(second) is Refresh,
    ensures
        message_of(second, times_after_event(first, times, now), later) is Some
            <==> elapsed(later, now) >= DEBOUNCE_NANOS,
{
}

/// The times after a series of events, each with its time.
pub open spec fn times_after_events(
    times: Map<Seq<char>, u64>,
    events: Seq<(Event, u64)>,
) -> Map<Seq<char>, u64>
    decreases events.len(),
{
    if events.len() == 0 {
        times
    } else {
        times_after_event(
            events.last().0,
            times_after_events(times, events.drop_last()),
            events.last().1,
        )
    }
}

/// Whether the `i`th of a series of events leads to an update of the focused workspace.
pub open spec fn refreshes(
    times: Map<Seq<char>, u64>,
    events: Seq<(Event, u64)>,
    i: int,
) -> bool {
    &&& wish_of(events[i].0) is Refresh
    &&& message_of(events[i].0, times_after_events(times, events.take(i)), events[i].1) is Some
}

/// Of a series of events, any two that lead to an update of the focused workspace are no less
/// than the debounce time apart.
pub proof fn law_refreshes_apart(
    times: Map<Seq<char>, u64>,
    events: Seq<(Event, u64)>,
    i: int,
    j: int,
)
    requires
        0 <= i < j < events.len(),
        refreshes(times, events, i),
        refreshes(times, events, j),
    ensures
        elapsed(events[j].1, events[i].1) >= DEBOUNCE_NANOS,
{
    lemma_refresh_counted(times, events, i, j);
}

/// Once an event has led to an update, the time of the last one is that event's or later.
proof fn lemma_refresh_counted(
    times: Map<Seq<char>, u64>,
    events: Seq<(Event, u64)>,
    i: int,
    n: int,
)
    requires
        0 <= i < n <= events.len(),
        refreshes(times, events, i),
    ensures
        times_after_events(times, events.take(n)).dom().contains("focus"@),
        times_after_events(times, events.take(n))["focus"@] >= events[i].1,
    decreases n,
{
    assert(events.take(n).drop_last() == events.take(n - 1));
    assert(events.take(n).last() == events[n - 1]);
    if i < n - 1 {
        lemma_refresh_counted(times, events, i, n - 1);
    }
}

/// A key binding that does not change the layout leads to nothing.
pub proof fn law_other_bindings_ignored(event: Event, times: Map<Seq<char>, u64>, now: u64)
    requires
        event.event == "binding-triggered"@,
        event.binding matches Some(binding) ==> !layout_bindings().contains(binding),
    ensures
        message_of(event, times, now) is None,
        times_after_event(event, times, now) == times,
{
    reveal_strlit("binding-triggered");
    reveal_strlit("focused-workspace-changed");
    reveal_strlit("focus-changed");
    reveal_strlit("focused-monitor-changed");
    reveal_strlit("window-detected");
    let kind = event.event;
    assert(kind.len() == 17);
    assert(kind != "focused-workspace-changed"@);
    assert(kind != "focus-changed"@);
    assert(kind != "focused-monitor-changed"@);
    assert(kind != "window-detected"@);
}

/// An update that an event calls for without naming a workspace is one of the workspace that then
/// has the focus, and so is one that a nudge calls for.
pub proof fn law_refresh_shows_focused(
    event: Event,
    times: Map<Seq<char>, u64>,
    now: u64,
    reply: Seq<char>,
)
    requires
        wish_of(event) is Refresh,
    ensures
        message_of(event, times, now) matches Some(message) ==> workspace_shown(message, reply)
            == reply,
        workspace_shown(VISIBILITY_MESSAGE@, reply) == reply,
{
    reveal_strlit("__");
    reveal_strlit("__focus__");
    reveal_strlit("__visibility__");
    assert(FOCUS_MESSAGE@.subrange(0, 2) =~= "__"@);
    assert(VISIBILITY_MESSAGE@.subrange(0, 2) =~= "__"@);
}

/// A change of workspace leads to an update of the workspace that it names, whichever has the
/// focus, provided that the name does not begin as those messages do that name none.
pub proof fn law_change_shows_named(
    event: Event,
    times: Map<Seq<char>, u64>,
    now: u64,
    reply: Seq<char>,
)
    requires
        event.event == "focused-workspace-changed"@,
        event.workspace is Some,
        !is_sentinel(event.workspace->0),
    ensures
        message_of(event, times, now) matches Some(message) && workspace_shown(message, reply)
            == event.workspace->0,
{
}

/// The file that is watched is the one that is reloaded.
pub proof fn law_watched_file_recognised(home: Seq<char>)
    ensures
        has_part(home + "/.config/aerospace/sketchybar/icon_map.toml"@, "icon_map.toml"@),
{
    reveal_strlit("/.config/aerospace/sketchybar/icon_map.toml");
    reveal_strlit("icon_map.toml");
    let path = home + "/.config/aerospace/sketchybar/icon_map.toml"@;
    let part = "icon_map.toml"@;
    let at = path.len() - part.len();
    assert(path.subrange(at, at + part.len()) =~= part);
}

/// What is sent to the socket for an event comes out of it as a line, and so as a nudge, whatever
/// the event is.
pub proof fn law_nudge_arrives(event: Seq<char>)
    ensures
        lines_of(event + "\n"@).len() > 0,
{
    reveal_strlit("\n");
    let sent = event + "\n"@;
    assert(sent.drop_last() == event);
    lemma_pieces_nonempty(event, '\n');
    assert(pieces(sent, '\n') == pieces(event, '\n').push(Seq::empty()));
}

/// Whether the debounce time is over since the last update of the focused workspace, if there was
/// one.
pub open spec fn refresh_allowed(times: Map<Seq<char>, u64>, now: u64) -> bool {
    !times.dom().contains("focus"@) || now >= times["focus"@] + 150_000_000
}

/// A change of focus or of monitor, a new window, and a change of workspace that does not name it
/// lead to an update of the focused workspace, unless the last one is less than the debounce time
/// ago; and only one that does is counted as the last.
pub proof fn law_focus_events(event: Event, times: Map<Seq<char>, u64>, now: u64)
    requires
        event.event == "focus-changed"@ || event.event == "focused-monitor-changed"@ || event.event
            == "window-detected"@ || (event.event == "focused-workspace-changed"@
            && event.workspace is None),
    ensures
        message_of(event, times, now) == if refresh_allowed(times, now) {
            Some("__focus__"@)
        } else {
            None
        },
        times_after_event(event, times, now) == if refresh_allowed(times, now) {
            times.insert("focus"@, now)
        } else {
            times
        },
{
    lemma_kinds_differ();
}

/// The names of the kinds of events differ.
proof fn lemma_kinds_differ()
    ensures
        "focus-changed"@ != "focused-workspace-changed"@,
        "focused-monitor-changed"@ != "focused-workspace-changed"@,
        "window-detected"@ != "focused-workspace-changed"@,
        "binding-triggered"@ != "focused-workspace-changed"@,
        "binding-triggered"@ != "focus-changed"@,
        "binding-triggered"@ != "focused-monitor-changed"@,
        "binding-triggered"@ != "window-detected"@,
{
    reveal_strlit("focus-changed");
    reveal_strlit("focused-workspace-changed");
    reveal_strlit("focused-monitor-changed");
    reveal_strlit("window-detected");
    reveal_strlit("binding-triggered");
    assert("focus-changed"@.len() == 13);
    assert("focused-workspace-changed"@.len() == 25);
    assert("focused-monitor-changed"@.len() == 23);
    assert("window-detected"@.len() == 15);
    assert("binding-triggered"@.len() == 17);
}

/// Whether a key binding is one of the ten that change the layout.
pub open spec fn is_one_of_ten(binding: Seq<char>) -> bool {
    ||| binding == "alt-shift-h"@
    ||| binding == "alt-shift-j"@
    ||| binding == "alt-shift-k"@
    ||| binding == "alt-shift-l"@
    ||| binding == "alt-shift-comma"@
    ||| binding == "alt-shift-period"@
    ||| binding == "alt-shift-u"@
    ||| binding == "alt-shift-i"@
    ||| binding == "alt-o"@
    ||| binding == "alt-r"@
}

/// A key binding leads to an update as a change of focus does where it is one of the ten that
/// change the layout, and to nothing where it is not.
pub proof fn law_binding_events(event: Event, times: Map<Seq<char>, u64>, now: u64)
    requires
        event.event == "binding-triggered"@,
    ensures
        event.binding is Some && is_one_of_ten(event.binding->0) ==> message_of(event, times, now)
            == (if refresh_allowed(times, now) {
            Some("__focus__"@)
        } else {
            None
        }) && times_after_event(event, times, now) == (if refresh_allowed(times, now) {
            times.insert("focus"@, now)
        } else {
            times
        }),
        event.binding is None || !is_one_of_ten(event.binding->0) ==> message_of(event, times, now)
            is None && times_after_event(event, times, now) == times,
{
    lemma_kinds_differ();
    let ten = layout_bindings();
    if event.binding is Some {
        let binding = event.binding->0;
        assert(ten[0] == "alt-shift-h"@);
        assert(ten[1] == "alt-shift-j"@);
        assert(ten[2] == "alt-shift-k"@);
        assert(ten[3] == "alt-shift-l"@);
        assert(ten[4] == "alt-shift-comma"@);
        assert(ten[5] == "alt-shift-period"@);
        assert(ten[6] == "alt-shift-u"@);
        assert(ten[7] == "alt-shift-i"@);
        assert(ten[8] == "alt-o"@);
        assert(ten[9] == "alt-r"@);
        assert(ten.contains(binding) <==> is_one_of_ten(binding));
    }
}

/// An event of any other kind leads to nothing.
pub proof fn law_other_events_ignored(event: Event, times: Map<Seq<char>, u64>, now: u64)
    requires
        event.event != "focused-workspace-changed"@,
        event.event != "focus-changed"@,
        event.event != "focused-monitor-changed"@,
        event.event != "window-detected"@,
        event.event != "binding-triggered"@,
    ensures
        message_of(event, times, now) is None,
        times_after_event(event, times, now) == times,
{
}

/// A message that begins with two underscores is one to show what has the focus, whatever follows
/// them; any other message is the name of the workspace to show.
pub proof fn law_message_shown(rest: Seq<char>, message: Seq<char>, reply: Seq<char>)
    ensures
        workspace_shown("__"@ + rest, reply) == reply,
        is_sentinel("__"@ + rest),
        message.len() < 2 || message[0] != '_' || message[1] != '_' ==> workspace_shown(
            message,
            reply,
        ) == message && !is_sentinel(message),
{
    reveal_strlit("__");
    law_start_found("__"@, rest, message);
    if is_sentinel(message) {
        let tail = choose|tail: Seq<char>| message == #[trigger] ("__"@ + tail);
        assert(message[0] == '_' && message[1] == '_');
    }
}

/// The hidden bundles of two lists of applications are those of the one and then those of the
/// other; of one application it is its bundle, where it is hidden and has one.
pub proof fn law_hidden_one_by_one(app: RunningApp, a: Seq<RunningApp>, b: Seq<RunningApp>)
    ensures
        hidden_bundles(a + b) == hidden_bundles(a) + hidden_bundles(b),
        app.hidden && app.bundle_id is Some ==> hidden_bundles(seq![app]) == seq![
            app.bundle_id->0@,
        ],
        !app.hidden || app.bundle_id is None ==> hidden_bundles(seq![app]).len() == 0,
    decreases b.len(),
{
    reveal_with_fuel(hidden_bundles, 2);
    assert(seq![app].drop_last() == Seq::<RunningApp>::empty());
    assert(seq![app].last() == app);
    if app.hidden && app.bundle_id is Some {
        assert(hidden_bundles(seq![app]) == seq![app.bundle_id->0@]);
    }
    if b.len() == 0 {
        assert(a + b == a);
        assert(hidden_bundles(a) + hidden_bundles(b) == hidden_bundles(a));
    } else {
        law_hidden_one_by_one(app, a, b.drop_last());
        assert((a + b).drop_last() == a + b.drop_last());
        assert((a + b).last() == b.last());
        assert(hidden_bundles(a + b) == hidden_bundles(a) + hidden_bundles(b));
    }
}

/// The bundle of every application that is hidden is among the hidden ones, wherever it stands in
/// the list, and no other bundle is.
pub proof fn law_hidden_listed(apps: Seq<RunningApp>, bundle: Seq<char>)
    ensures
        hidden_bundles(apps).contains(bundle) <==> exists|i: int|
            0 <= i < apps.len() && (#[trigger] apps[i]).hidden && apps[i].bundle_id is Some
                && apps[i].bundle_id->0@ == bundle,
    decreases apps.len(),
{
    let all = hidden_bundles(apps);
    if apps.len() > 0 {
        let start = apps.drop_last();
        let before = hidden_bundles(start);
        law_hidden_listed(start, bundle);
        if before.contains(bundle) {
            let i = choose|i: int|
                0 <= i < start.len() && (#[trigger] start[i]).hidden && start[i].bundle_id is Some
                    && start[i].bundle_id->0@ == bundle;
            assert(apps[i] == start[i]);
            let k = choose|k: int| 0 <= k < before.len() && before[k] == bundle;
            assert(all[k] == bundle);
        }
        let last = apps.len() - 1;
        if apps[last].hidden && apps[last].bundle_id is Some {
            assert(all == before.push(apps[last].bundle_id->0@));
            assert(all[before.len() as int] == apps[last].bundle_id->0@);
        }
        if all.contains(bundle) && !before.contains(bundle) {
            let k = choose|k: int| 0 <= k < all.len() && all[k] == bundle;
            if k < before.len() {
                assert(before[k] == bundle);
            }
        }
        if exists|i: int|
            0 <= i < apps.len() && (#[trigger] apps[i]).hidden && apps[i].bundle_id is Some
                && apps[i].bundle_id->0@ == bundle {
            let i = choose|i: int|
                0 <= i < apps.len() && (#[trigger] apps[i]).hidden && apps[i].bundle_id is Some
                    && apps[i].bundle_id->0@ == bundle;
            if i < last {
                assert(start[i] == apps[i]);
            }
        }
    }
}

/// What an event says is what its parts do.
pub proof fn law_view_of_event(event: SubscribeEvent)
    ensures
        event@.event == event.event@,
        event.workspace matches Some(workspace) ==> event@.workspace == Some(workspace@),
        event.workspace is None ==> event@.workspace is None,
        event.binding matches Some(binding) ==> event@.binding == Some(binding@),
        event.binding is None ==> event@.binding is None,
{
}

} // verus!
