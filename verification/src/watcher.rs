//! The change watcher: when to start the background worker, and when a window event
//! becomes a notification to the front end.
//!
//! The watcher itself does nothing to the outside world. Each function takes what
//! happened and says what to do; whoever owns the `Watcher` performs it and must call
//! these functions one at a time. The worker, once started, registers one hook for the
//! events from `HOOK_EVENT_MIN` to `HOOK_EVENT_MAX` and reports the outcome through
//! `hook_registered`. There is no way to stop the watcher: it runs for as long as the
//! process does.

use vstd::prelude::*;

verus! {

/// The code under which the system reports that an object was created.
pub const EVENT_OBJECT_CREATE: u32 = 0x8000;

/// The code under which the system reports that an object was destroyed.
pub const EVENT_OBJECT_DESTROY: u32 = 0x8001;

/// The code under which the system reports that an object was shown.
pub const EVENT_OBJECT_SHOW: u32 = 0x8002;

/// The code under which the system reports that an object was hidden.
pub const EVENT_OBJECT_HIDE: u32 = 0x8003;

/// The object identifier of an event that concerns the window itself.
pub const OBJID_WINDOW: i32 = 0;

/// The first event code that the hook subscribes to.
pub const HOOK_EVENT_MIN: u32 = EVENT_OBJECT_CREATE;

/// The last event code that the hook subscribes to.
pub const HOOK_EVENT_MAX: u32 = EVENT_OBJECT_HIDE;

/// How long, in milliseconds, further events are ignored after a notification.
pub const QUIET_PERIOD_MS: u64 = 500;

/// The name of the notification to the front end. It carries nothing: the front end
/// asks for the list again.
pub const CHANGE_EVENT: &'static str = "window-changed";

/// Where the watcher stands. It never goes back to `Stopped` once it is `Running`.
#[derive(Clone, Copy, Debug, PartialEq, Eq, Structural)]
pub enum WatcherState {
    Stopped,
    Starting,
    Running,
}

/// The watcher: its state and whether a quiet period is under way.
#[derive(Clone, Copy, Debug, PartialEq, Eq, Structural)]
pub struct Watcher {
    pub state: WatcherState,
    pub debounce_active: bool,
}

/// Something that happens to the watcher.
#[derive(Clone, Copy, Debug, PartialEq, Eq, Structural)]
pub enum WatcherInput {
    /// The start operation was called.
    Start,
    /// The worker has tried to register its hook, with or without success.
    HookRegistered { ok: bool },
    /// The hook has reported an event.
    Event { event: u32, id_object: i32 },
    /// The quiet period that the last notification began is over.
    QuietPeriodElapsed,
}

/// What the owner of the watcher has to do.
#[derive(Clone, Copy, Debug, PartialEq, Eq, Structural)]
pub enum WatcherAction {
    Nothing,
    /// Start the background worker, which registers the hook.
    SpawnWorker,
    /// Tell the front end that the windows changed, and report `QuietPeriodElapsed`
    /// after `QUIET_PERIOD_MS`.
    Notify,
}

/// An event counts when it concerns a window itself and says that the window was
/// created, destroyed, shown or hidden.
pub open spec fn is_window_change(event: u32, id_object: i32) -> bool {
    id_object == OBJID_WINDOW && (event == EVENT_OBJECT_CREATE || event == EVENT_OBJECT_DESTROY
        || event == EVENT_OBJECT_SHOW || event == EVENT_OBJECT_HIDE)
}

/// The watcher after `input`, and what is to be done.
pub open spec fn step(w: Watcher, input: WatcherInput) -> (Watcher, WatcherAction) {
    match input {
        WatcherInput::Start => if w.state == WatcherState::Stopped {
            (
                Watcher { state: WatcherState::Starting, debounce_active: w.debounce_active },
                WatcherAction::SpawnWorker,
            )
        } else {
            (w, WatcherAction::Nothing)
        },
        WatcherInput::HookRegistered { ok } => if w.state == WatcherState::Starting {
            (
                Watcher {
                    state: if ok {
                        WatcherState::Running
                    } else {
                        WatcherState::Stopped
                    },
                    debounce_active: w.debounce_active,
                },
                WatcherAction::Nothing,
            )
        } else {
            (w, WatcherAction::Nothing)
        },
        WatcherInput::Event { event, id_object } => if is_window_change(event, id_object)
            && !w.debounce_active {
            (Watcher { state: w.state, debounce_active: true }, WatcherAction::Notify)
        } else {
            (w, WatcherAction::Nothing)
        },
        WatcherInput::QuietPeriodElapsed => (
            Watcher { state: w.state, debounce_active: false },
            WatcherAction::Nothing,
        ),
    }
}

/// How often `action` is called for while the watcher takes `inputs` one after another.
pub open spec fn occurrences(w: Watcher, inputs: Seq<WatcherInput>, action: WatcherAction) -> nat
    decreases inputs.len(),
{
    if inputs.len() == 0 {
        0
    } else {
        let (next, first) = step(w, inputs[0]);
        let here: nat = if first == action {
            1
        } else {
            0
        };
        here + occurrences(next, inputs.drop_first(), action)
    }
}

/// The watcher after it has taken `inputs` one after another.
pub open spec fn after(w: Watcher, inputs: Seq<WatcherInput>) -> Watcher
    decreases inputs.len(),
{
    if inputs.len() == 0 {
        w
    } else {
        after(step(w, inputs[0]).0, inputs.drop_first())
    }
}

/// `input` is an event that counts.
pub open spec fn is_change_input(input: WatcherInput) -> bool {
    input matches WatcherInput::Event { event, id_object } && is_window_change(event, id_object)
}

impl Watcher {
    /// A watcher that has not been started, with no quiet period under way.
    pub fn new() -> (w: Watcher)
        ensures
            w == (Watcher { state: WatcherState::Stopped, debounce_active: false }),
    {
        Watcher { state: WatcherState::Stopped, debounce_active: false }
    }

    /// Whether the worker should go on retrieving messages.
    pub fn is_running(&self) -> (running: bool)
        ensures
            running == (self.state == WatcherState::Running),
    {
        match self.state {
            WatcherState::Running => true,
            _ => false,
        }
    }
}

/// Starts the watcher. Only a call on a stopped watcher has an effect: it returns
/// `true`, and the caller then starts the one background worker. Every other call
/// returns `false` and changes nothing.
pub fn start_watching(watcher: &mut Watcher) -> (spawn: bool)
    ensures
        *final(watcher) == step(*old(watcher), WatcherInput::Start).0,
        spawn == (step(*old(watcher), WatcherInput::Start).1 == WatcherAction::SpawnWorker),
        spawn == (old(watcher).state == WatcherState::Stopped),
{
    match watcher.state {
        WatcherState::Stopped => {
            watcher.state = WatcherState::Starting;
            true
        },
        _ => false,
    }
}

/// Takes the outcome of the worker's attempt to register the hook. After a success the
/// watcher is running and the result is `true`: the worker goes on to retrieve
/// messages. After a failure the watcher is stopped again, so that a later start can
/// try once more, and the result is `false`: the worker ends.
pub fn hook_registered(watcher: &mut Watcher, ok: bool) -> (keep_running: bool)
    ensures
        *final(watcher) == step(*old(watcher), WatcherInput::HookRegistered { ok }).0,
        keep_running == (final(watcher).state == WatcherState::Running),
{
    match watcher.state {
        WatcherState::Starting => {
            if ok {
                watcher.state = WatcherState::Running;
            } else {
                watcher.state = WatcherState::Stopped;
            }
            ok
        },
        WatcherState::Running => true,
        WatcherState::Stopped => false,
    }
}

/// Whether an event concerns a window itself and says that it was created, destroyed,
/// shown or hidden.
pub fn is_window_event(event: u32, id_object: i32) -> (counts: bool)
    ensures
        counts == is_window_change(event, id_object),
{
    id_object == OBJID_WINDOW && (event == EVENT_OBJECT_CREATE || event == EVENT_OBJECT_DESTROY
        || event == EVENT_OBJECT_SHOW || event == EVENT_OBJECT_HIDE)
}

/// Takes an event from the hook. The result is `true` where the front end is to be
/// notified: for an event that counts while no quiet period is under way. A quiet
/// period then begins, and the caller reports its end through `quiet_period_elapsed`
/// after `QUIET_PERIOD_MS`. Every other event changes nothing.
pub fn on_window_event(watcher: &mut Watcher, event: u32, id_object: i32) -> (notify: bool)
    ensures
        *final(watcher) == step(*old(watcher), WatcherInput::Event { event, id_object }).0,
        notify == (step(*old(watcher), WatcherInput::Event { event, id_object }).1
            == WatcherAction::Notify),
        notify == (is_window_change(event, id_object) && !old(watcher).debounce_active),
{
    if is_window_event(event, id_object) && !watcher.debounce_active {
        watcher.debounce_active = true;
        true
    } else {
        false
    }
}

/// Ends the quiet period: the next event that counts is notified again.
pub fn quiet_period_elapsed(watcher: &mut Watcher)
    ensures
        *final(watcher) == step(*old(watcher), WatcherInput::QuietPeriodElapsed).0,
        !final(watcher).debounce_active,
        final(watcher).state == old(watcher).state,
{
    watcher.debounce_active = false;
}

/// Takes whatever happened and says what is to be done: the four functions above in
/// one.
pub fn apply(watcher: &mut Watcher, input: WatcherInput) -> (action: WatcherAction)
    ensures
        (*final(watcher), action) == step(*old(watcher), input),
{
    match input {
        WatcherInput::Start => {
            if start_watching(watcher) {
                WatcherAction::SpawnWorker
            } else {
                WatcherAction::Nothing
            }
        },
        WatcherInput::HookRegistered { ok } => {
            hook_registered(watcher, ok);
            WatcherAction::Nothing
        },
        WatcherInput::Event { event, id_object } => {
            if on_window_event(watcher, event, id_object) {
                WatcherAction::Notify
            } else {
                WatcherAction::Nothing
            }
        },
        WatcherInput::QuietPeriodElapsed => {
            quiet_period_elapsed(watcher);
            WatcherAction::Nothing
        },
    }
}

/// Every event that counts lies in the range that the hook subscribes to.
pub proof fn lemma_hook_covers_changes(event: u32, id_object: i32)
    requires
        is_window_change(event, id_object),
    ensures
        HOOK_EVENT_MIN <= event <= HOOK_EVENT_MAX,
{
}

/// While a quiet period is under way and does not end, nothing is notified.
pub proof fn lemma_quiet_period_is_silent(w: Watcher, inputs: Seq<WatcherInput>)
    requires
        w.debounce_active,
        forall|i: int| 0 <= i < inputs.len() ==> inputs[i] != WatcherInput::QuietPeriodElapsed,
    ensures
        occurrences(w, inputs, WatcherAction::Notify) == 0,
        after(w, inputs).debounce_active,
    decreases inputs.len(),
{
    if inputs.len() > 0 {
        let next = step(w, inputs[0]).0;
        assert forall|i: int| 0 <= i < inputs.drop_first().len() implies inputs.drop_first()[i]
            != WatcherInput::QuietPeriodElapsed by {}
        lemma_quiet_period_is_silent(next, inputs.drop_first());
    }
}

/// Any number of events that count, arriving within one quiet period, give exactly one
/// notification.
pub proof fn lemma_burst_notifies_once(w: Watcher, inputs: Seq<WatcherInput>)
    requires
        !w.debounce_active,
        inputs.len() >= 1,
        forall|i: int| 0 <= i < inputs.len() ==> is_change_input(inputs[i]),
    ensures
        occurrences(w, inputs, WatcherAction::Notify) == 1,
{
    let next = step(w, inputs[0]).0;
    assert forall|i: int| 0 <= i < inputs.drop_first().len() implies inputs.drop_first()[i]
        != WatcherInput::QuietPeriodElapsed by {}
    lemma_quiet_period_is_silent(next, inputs.drop_first());
}

/// Events that count, each followed by the end of the quiet period that it began, give
/// one notification each.
pub proof fn lemma_spaced_events_notify_each(w: Watcher, inputs: Seq<WatcherInput>)
    requires
        !w.debounce_active,
        inputs.len() % 2 == 0,
        forall|i: int| 0 <= i < inputs.len() && i % 2 == 0 ==> is_change_input(inputs[i]),
        forall|i: int|
            0 <= i < inputs.len() && i % 2 == 1 ==> inputs[i] == WatcherInput::QuietPeriodElapsed,
    ensures
        occurrences(w, inputs, WatcherAction::Notify) == inputs.len() / 2,
        !after(w, inputs).debounce_active,
    decreases inputs.len(),
{
    if inputs.len() > 0 {
        let w1 = step(w, inputs[0]).0;
        let w2 = step(w1, inputs[1]).0;
        let rest = inputs.drop_first().drop_first();
        assert forall|i: int| 0 <= i < rest.len() implies rest[i] == inputs[i + 2] by {}
        lemma_spaced_events_notify_each(w2, rest);
        assert(occurrences(w1, inputs.drop_first(), WatcherAction::Notify) == occurrences(
            w2,
            rest,
            WatcherAction::Notify,
        ));
        assert(after(w1, inputs.drop_first()) == after(w2, rest));
    }
}

/// Between the ends of two quiet periods at most one notification is given, whatever
/// arrives.
pub proof fn lemma_at_most_one_notification(w: Watcher, inputs: Seq<WatcherInput>)
    requires
        forall|i: int| 0 <= i < inputs.len() ==> inputs[i] != WatcherInput::QuietPeriodElapsed,
    ensures
        occurrences(w, inputs, WatcherAction::Notify) <= 1,
    decreases inputs.len(),
{
    if inputs.len() > 0 {
        let (next, first) = step(w, inputs[0]);
        assert forall|i: int| 0 <= i < inputs.drop_first().len() implies inputs.drop_first()[i]
            != WatcherInput::QuietPeriodElapsed by {}
        if first == WatcherAction::Notify {
            lemma_quiet_period_is_silent(next, inputs.drop_first());
        } else {
            lemma_at_most_one_notification(next, inputs.drop_first());
        }
    }
}

/// A start that follows a start does nothing: the first call on a stopped watcher asks
/// for the worker, and no later call does until the hook has failed.
pub proof fn lemma_start_is_idempotent(w: Watcher)
    ensures
        step(step(w, WatcherInput::Start).0, WatcherInput::Start) == (
            step(w, WatcherInput::Start).0,
            WatcherAction::Nothing,
        ),
        w.state == WatcherState::Stopped ==> step(w, WatcherInput::Start).1
            == WatcherAction::SpawnWorker,
        w.state != WatcherState::Stopped ==> step(w, WatcherInput::Start) == (
            w,
            WatcherAction::Nothing,
        ),
{
}

/// Starts on a watcher that is not stopped ask for no worker.
pub proof fn lemma_started_spawns_nothing(w: Watcher, inputs: Seq<WatcherInput>)
    requires
        w.state != WatcherState::Stopped,
        forall|i: int| 0 <= i < inputs.len() ==> inputs[i] == WatcherInput::Start,
    ensures
        occurrences(w, inputs, WatcherAction::SpawnWorker) == 0,
    decreases inputs.len(),
{
    if inputs.len() > 0 {
        assert forall|i: int| 0 <= i < inputs.drop_first().len() implies inputs.drop_first()[i]
            == WatcherInput::Start by {}
        lemma_started_spawns_nothing(step(w, inputs[0]).0, inputs.drop_first());
    }
}

/// Any number of starts in a row on a stopped watcher ask for exactly one worker.
pub proof fn lemma_starts_spawn_one_worker(w: Watcher, inputs: Seq<WatcherInput>)
    requires
        w.state == WatcherState::Stopped,
        inputs.len() >= 1,
        forall|i: int| 0 <= i < inputs.len() ==> inputs[i] == WatcherInput::Start,
    ensures
        occurrences(w, inputs, WatcherAction::SpawnWorker) == 1,
{
    assert forall|i: int| 0 <= i < inputs.drop_first().len() implies inputs.drop_first()[i]
        == WatcherInput::Start by {}
    lemma_started_spawns_nothing(step(w, inputs[0]).0, inputs.drop_first());
}

/// A running watcher stays running, whatever arrives.
pub proof fn lemma_running_stays_running(w: Watcher, input: WatcherInput)
    requires
        w.state == WatcherState::Running,
    ensures
        step(w, input).0.state == WatcherState::Running,
{
}

} // verus!
