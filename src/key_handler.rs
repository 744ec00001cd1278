//! The sequence coordinator: per key, it consults the trie and the ledger,
//! decides whether the key is suppressed, which events go out now, and what
//! the debounce timer has to do; when the timer wakes, it decides whether
//! the deferred actions fire.
use vstd::prelude::*;

use crate::keypress_buffer::KeyPressBuffer;
use crate::mapping_manager::{advance, apply_mapping, Actions};
use crate::mapping_trie::MappingTrie;
use crate::types::{key_of, Behaviour, Event, Key, KeyPress, Mapping, Modifier, Notice};

verus! {

/// The buffer of matched keys and the ledger of deferred choice actions.
pub struct Buffers<A, T> {
    pub key_buffer: KeyPressBuffer,
    pub actions_on_timeout: Actions<A, T>,
}

impl<A, T> View for Buffers<A, T> {
    type V = (Seq<KeyPress>, (Seq<A>, Option<T>));

    open spec fn view(&self) -> Self::V {
        (self.key_buffer@, self.actions_on_timeout@)
    }
}

impl<A: Copy, T: Copy> Buffers<A, T> {
    /// Both empty.
    pub fn new() -> (r: Self)
        ensures
            r@ == (Seq::<KeyPress>::empty(), (Seq::<A>::empty(), None::<T>)),
    {
        Self { key_buffer: KeyPressBuffer::new(), actions_on_timeout: Actions::empty() }
    }
}

/// The outward decision for one key, in the terms of its contract.
pub enum Decision<A, T> {
    Nothing,
    Timeout,
    SendAction(A),
    SendActionBeforeTimeout(A),
    SendActionOnTimeout(A),
    SendActionsOnTimeout(Seq<A>, Option<T>),
    SendActionBeforeTimeoutAndOnTimeout(A, Seq<A>, Option<T>),
    StopTheHook,
}

/// The outward decision for one key.
#[derive(Debug, PartialEq, Eq)]
pub enum KeyHandlerAction<A, T> {
    /// No mapping: the sequence resets.
    Nothing,
    /// Keep waiting for the next key.
    Timeout,
    /// Deliver the action now; the sequence is finished.
    SendAction(A),
    /// Deliver the action now; the choice stays open.
    SendActionBeforeTimeout(A),
    /// Deliver the action once the quiet period elapses.
    SendActionOnTimeout(A),
    /// Deliver the batch once the quiet period elapses.
    SendActionsOnTimeout(Actions<A, T>),
    /// Deliver `before` now and the batch `on` once the quiet period elapses.
    SendActionBeforeTimeoutAndOnTimeout { before: A, on: Actions<A, T> },
    /// Terminate the engine.
    StopTheHook,
}

impl<A, T> View for KeyHandlerAction<A, T> {
    type V = Decision<A, T>;

    open spec fn view(&self) -> Decision<A, T> {
        match self {
            KeyHandlerAction::Nothing => Decision::Nothing,
            KeyHandlerAction::Timeout => Decision::Timeout,
            KeyHandlerAction::SendAction(a) => Decision::SendAction(*a),
            KeyHandlerAction::SendActionBeforeTimeout(a) => Decision::SendActionBeforeTimeout(*a),
            KeyHandlerAction::SendActionOnTimeout(a) => Decision::SendActionOnTimeout(*a),
            KeyHandlerAction::SendActionsOnTimeout(on) => Decision::SendActionsOnTimeout(on@.0, on@.1),
            KeyHandlerAction::SendActionBeforeTimeoutAndOnTimeout { before, on } =>
                Decision::SendActionBeforeTimeoutAndOnTimeout(*before, on@.0, on@.1),
            KeyHandlerAction::StopTheHook => Decision::StopTheHook,
        }
    }
}

/// Whether a key event is swallowed or handed on to the next hook.
#[derive(Clone, Copy, Debug, PartialEq, Eq, Structural)]
pub enum HookAction {
    Suppress,
    PassOn,
}

/// What the debounce timer has to do after a key.
#[derive(Clone, Copy, Debug, PartialEq, Eq, Structural)]
pub enum TimerCommand {
    /// Nothing.
    Keep,
    /// Start a quiet-period wait; the timer was idle.
    Start,
    /// Wake the running wait so that it sees the new flags.
    Notify,
}

/// Everything the coordinator decided for one key event.
#[derive(Debug, PartialEq, Eq)]
pub struct KeyOutcome<A, T> {
    pub verdict: HookAction,
    pub action: KeyHandlerAction<A, T>,
    /// Events to deliver now, in order.
    pub events: Vec<Event<A, T>>,
    pub timer: TimerCommand,
    /// The engine is asked to terminate.
    pub shutdown: bool,
}

/// A key outcome in the terms of contracts.
pub struct KeyResult<A, T> {
    pub verdict: HookAction,
    pub decision: Decision<A, T>,
    pub events: Seq<Notice<A, T>>,
    pub timer: TimerCommand,
    pub shutdown: bool,
}

/// The views of a list of events.
pub open spec fn notices<A, T>(events: Seq<Event<A, T>>) -> Seq<Notice<A, T>> {
    events.map_values(|e: Event<A, T>| e@)
}

impl<A, T> View for KeyOutcome<A, T> {
    type V = KeyResult<A, T>;

    open spec fn view(&self) -> KeyResult<A, T> {
        KeyResult {
            verdict: self.verdict,
            decision: self.action@,
            events: notices(self.events@),
            timer: self.timer,
            shutdown: self.shutdown,
        }
    }
}

/// What the debounce wait does after it woke.
#[derive(Debug, PartialEq, Eq)]
pub enum TimerOutcome<A, T> {
    /// A retrigger was seen: wait a whole quiet period again.
    WaitAgain,
    /// The wait is over; deliver these events (none after a cancel or a quit).
    Finished(Vec<Event<A, T>>),
}

impl<A, T> View for TimerOutcome<A, T> {
    type V = Option<Seq<Notice<A, T>>>;

    open spec fn view(&self) -> Option<Seq<Notice<A, T>>> {
        match self {
            TimerOutcome::WaitAgain => None,
            TimerOutcome::Finished(events) => Some(notices(events@)),
        }
    }
}

/// The coordinator's shared state, in the terms of contracts.
pub struct Coordination<A, T> {
    /// The confirmed prefix since the last reset.
    pub buffer: Seq<KeyPress>,
    /// The ledger of the current choice episode.
    pub ledger: (Seq<A>, Option<T>),
    /// The action that a single step deferred to the quiet period.
    pub pending: Option<A>,
    pub running: bool,
    pub retrigger: bool,
    pub cancelled: bool,
    pub quitting: bool,
}

/// The state of a coordinator that has seen no key.
pub open spec fn fresh<A, T>() -> Coordination<A, T> {
    Coordination {
        buffer: seq![],
        ledger: (seq![], None),
        pending: None,
        running: false,
        retrigger: false,
        cancelled: false,
        quitting: false,
    }
}

/// `c` with buffer, ledger and pending action emptied.
pub open spec fn cleared<A, T>(c: Coordination<A, T>) -> Coordination<A, T> {
    Coordination { buffer: seq![], ledger: (seq![], None), pending: None, ..c }
}

/// Starts the timer when idle, else retriggers it (which also withdraws a
/// cancel that the timer has not seen yet).
pub open spec fn arm<A, T>(c: Coordination<A, T>) -> (Coordination<A, T>, TimerCommand) {
    if c.running {
        (Coordination { retrigger: true, cancelled: false, ..c }, TimerCommand::Notify)
    } else {
        (Coordination { running: true, retrigger: false, cancelled: false, ..c }, TimerCommand::Start)
    }
}

/// Cancels the timer if it runs.
pub open spec fn cancel<A, T>(c: Coordination<A, T>) -> (Coordination<A, T>, TimerCommand) {
    if c.running {
        (Coordination { cancelled: true, ..c }, TimerCommand::Notify)
    } else {
        (c, TimerCommand::Keep)
    }
}

/// The action a single step defers to the quiet period, if it does.
pub open spec fn single_deferred<A, T>(found: Option<Mapping<A, T>>) -> Option<A> {
    match found {
        Some(Mapping::Single(Behaviour::ActionOnTimeout(_, a))) => Some(a),
        _ => None,
    }
}

/// The new state and the outcome when `key` goes down in state `c`.
///
/// No match resets everything and passes the key on. Otherwise the key is
/// suppressed; an immediate single action or a shutdown finishes the
/// sequence (reset, timer cancelled), every other decision keeps it alive
/// (timer started or retriggered). Immediate actions go out as events now.
pub open spec fn on_key<A, T>(trie: MappingTrie<A, T>, c: Coordination<A, T>, key: KeyPress) -> (Coordination<A, T>, KeyResult<A, T>) {
    let found = trie.lookup(c.buffer, key);
    let (d, bufs) = advance(found, key, (c.buffer, c.ledger));
    let c1 = Coordination { buffer: bufs.0, ledger: bufs.1, pending: single_deferred(found), ..c };
    let result = |verdict: HookAction, events: Seq<Notice<A, T>>, timer: TimerCommand, shutdown: bool|
        KeyResult { verdict, decision: d, events, timer, shutdown };
    match d {
        Decision::Nothing => {
            let (c2, t) = cancel(cleared(c));
            (c2, result(HookAction::PassOn, seq![], t, false))
        },
        Decision::SendAction(a) => {
            let (c2, t) = cancel(cleared(c1));
            (c2, result(HookAction::Suppress, seq![Notice::Single(a)], t, false))
        },
        Decision::StopTheHook => {
            let (c2, t) = cancel(cleared(c1));
            (c2, result(HookAction::Suppress, seq![], t, true))
        },
        Decision::SendActionBeforeTimeout(a) => {
            let (c2, t) = arm(c1);
            (c2, result(HookAction::Suppress, seq![Notice::Single(a)], t, false))
        },
        Decision::SendActionBeforeTimeoutAndOnTimeout(a, _, _) => {
            let (c2, t) = arm(c1);
            (c2, result(HookAction::Suppress, seq![Notice::Single(a)], t, false))
        },
        _ => {
            let (c2, t) = arm(c1);
            (c2, result(HookAction::Suppress, seq![], t, false))
        },
    }
}

/// What a quiet period delivers: the pending single action, then the
/// ledger's batch.
pub open spec fn fire_events<A, T>(c: Coordination<A, T>) -> Seq<Notice<A, T>> {
    let first: Seq<Notice<A, T>> = match c.pending {
        Some(a) => seq![Notice::Single(a)],
        None => seq![],
    };
    match c.ledger.1 {
        Some(tag) => first.push(Notice::Multi(tag, c.ledger.0)),
        None => first,
    }
}

/// The new state and the outcome when the debounce wait wakes in state `c`,
/// `timed_out` telling whether the whole quiet period elapsed.
///
/// A quit ends the wait and touches nothing else. A full period with neither
/// retrigger nor cancel fires and resets. A cancel resets without firing.
/// Otherwise a retrigger was seen and the wait starts over.
pub open spec fn on_wake<A, T>(c: Coordination<A, T>, timed_out: bool) -> (Coordination<A, T>, Option<Seq<Notice<A, T>>>) {
    if c.quitting {
        (Coordination { running: false, ..c }, Some(seq![]))
    } else if timed_out && !c.retrigger && !c.cancelled {
        (Coordination { running: false, ..cleared(c) }, Some(fire_events(c)))
    } else if c.cancelled {
        (Coordination { running: false, ..cleared(c) }, Some(seq![]))
    } else {
        (Coordination { retrigger: false, ..c }, None)
    }
}

/// The codes of Alt, Ctrl, Shift and Win pressed alone.
pub open spec fn is_modifier_code(key: u32) -> bool {
    key == 91 || key == 92 || key == 93 || (160 <= key && key <= 165)
}

/// The key press a raw key-down stands for: none for a lone modifier, else
/// the normalized key with Alt if Alt is among `modifiers`.
pub open spec fn raw_press(key: u32, modifiers: Seq<Modifier>) -> Option<KeyPress> {
    if is_modifier_code(key) {
        None
    } else {
        Some(KeyPress::Mod(
            key_of((key % 256) as u8),
            if modifiers.contains(Modifier::ModAlt) { Modifier::ModAlt } else { Modifier::NoMod },
        ))
    }
}

struct SharedState<A, T> {
    timeout_cancelled: bool,
    quitting: bool,
    timeout_retrigger: bool,
    timeout_running: bool,
    timeout_action: Option<A>,
    buffers: Buffers<A, T>,
}

/// The sequence coordinator over one compiled trie.
pub struct KeypressHandler<A, T> {
    state: SharedState<A, T>,
    mapping_trie: MappingTrie<A, T>,
}

impl<A, T> View for KeypressHandler<A, T> {
    type V = Coordination<A, T>;

    closed spec fn view(&self) -> Coordination<A, T> {
        Coordination {
            buffer: self.state.buffers@.0,
            ledger: self.state.buffers@.1,
            pending: self.state.timeout_action,
            running: self.state.timeout_running,
            retrigger: self.state.timeout_retrigger,
            cancelled: self.state.timeout_cancelled,
            quitting: self.state.quitting,
        }
    }
}

/// A list of one event.
fn one_event<A: Copy, T: Copy>(event: Event<A, T>) -> (r: Vec<Event<A, T>>)
    ensures
        notices(r@) == seq![event@],
{
    let mut events: Vec<Event<A, T>> = Vec::new();
    events.push(event);
    assert(notices(events@) =~= seq![event@]);
    events
}

impl<A, T> KeypressHandler<A, T> {
    /// The compiled trie this coordinator matches against.
    pub closed spec fn trie(&self) -> MappingTrie<A, T> {
        self.mapping_trie
    }

    pub open spec fn wf(&self) -> bool {
        self.trie().wf()
    }
}

impl<A: Copy, T: Copy> KeypressHandler<A, T> {
    /// A coordinator over `mapping_trie` that has seen no key.
    pub fn new(mapping_trie: MappingTrie<A, T>) -> (r: Self)
        requires
            mapping_trie.wf(),
        ensures
            r.wf(),
            r.trie() == mapping_trie,
            r@ == fresh::<A, T>(),
    {
        KeypressHandler {
            state: SharedState {
                timeout_cancelled: false,
                quitting: false,
                timeout_retrigger: false,
                timeout_running: false,
                timeout_action: None,
                buffers: Buffers::new(),
            },
            mapping_trie,
        }
    }

    fn clear_state(&mut self)
        ensures
            final(self)@ == cleared(old(self)@),
            final(self).trie() == old(self).trie(),
    {
        self.state.buffers.key_buffer.clear();
        self.state.buffers.actions_on_timeout.clear();
        self.state.timeout_action = None;
    }

    fn arm_timer(&mut self) -> (t: TimerCommand)
        ensures
            (final(self)@, t) == arm(old(self)@),
            final(self).trie() == old(self).trie(),
    {
        self.state.timeout_cancelled = false;
        if self.state.timeout_running {
            self.state.timeout_retrigger = true;
            TimerCommand::Notify
        } else {
            self.state.timeout_running = true;
            self.state.timeout_retrigger = false;
            TimerCommand::Start
        }
    }

    fn cancel_timer(&mut self) -> (t: TimerCommand)
        ensures
            (final(self)@, t) == cancel(old(self)@),
            final(self).trie() == old(self).trie(),
    {
        if self.state.timeout_running {
            self.state.timeout_cancelled = true;
            TimerCommand::Notify
        } else {
            TimerCommand::Keep
        }
    }

    /// Handles one key press: see `on_key`.
    pub fn handle_key_press(&mut self, key_press: KeyPress) -> (r: KeyOutcome<A, T>)
        requires
            old(self).wf(),
        ensures
            final(self).wf(),
            final(self).trie() == old(self).trie(),
            (final(self)@, r@) == on_key(old(self).trie(), old(self)@, key_press),
    {
        let ghost c0 = self@;
        let found = self.mapping_trie.find_mapping(
            &key_press,
            self.state.buffers.key_buffer.get_keypresses().as_slice(),
        );
        let m = match found {
            Some(m) => m,
            None => {
                self.clear_state();
                let timer = self.cancel_timer();
                let events: Vec<Event<A, T>> = Vec::new();
                assert(notices(events@) =~= seq![]);
                let r = KeyOutcome {
                    verdict: HookAction::PassOn,
                    action: KeyHandlerAction::Nothing,
                    events,
                    timer,
                    shutdown: false,
                };
                assert(self.trie().lookup(c0.buffer, key_press) is None);
                assert(r@ == on_key(self.trie(), c0, key_press).1);
                assert(self@ == on_key(self.trie(), c0, key_press).0);
                return r;
            },
        };
        let pending = match m {
            Mapping::Single(Behaviour::ActionOnTimeout(_, a)) => Some(*a),
            _ => None,
        };
        let action = apply_mapping(m, &key_press, &mut self.state.buffers);
        self.state.timeout_action = pending;
        assert(self.trie().lookup(c0.buffer, key_press) == Some(*m));
        assert(pending == single_deferred(Some(*m)));
        let ghost c1 = self@;
        assert(c1.buffer == advance(Some(*m), key_press, (c0.buffer, c0.ledger)).1.0);
        assert(c1.ledger == advance(Some(*m), key_press, (c0.buffer, c0.ledger)).1.1);
        let (verdict, events, timer, shutdown) = match &action {
            KeyHandlerAction::Nothing => {
                self.clear_state();
                (HookAction::PassOn, Vec::new(), self.cancel_timer(), false)
            },
            KeyHandlerAction::SendAction(a) => {
                self.clear_state();
                (HookAction::Suppress, one_event(Event::Single(*a)), self.cancel_timer(), false)
            },
            KeyHandlerAction::StopTheHook => {
                self.clear_state();
                (HookAction::Suppress, Vec::new(), self.cancel_timer(), true)
            },
            KeyHandlerAction::SendActionBeforeTimeout(a) => {
                (HookAction::Suppress, one_event(Event::Single(*a)), self.arm_timer(), false)
            },
            KeyHandlerAction::SendActionBeforeTimeoutAndOnTimeout { before, .. } => {
                (HookAction::Suppress, one_event(Event::Single(*before)), self.arm_timer(), false)
            },
            _ => (HookAction::Suppress, Vec::new(), self.arm_timer(), false),
        };
        let r = KeyOutcome { verdict, action, events, timer, shutdown };
        assert(self@ == on_key(self.trie(), c0, key_press).0);
        assert(r@.decision == on_key(self.trie(), c0, key_press).1.decision);
        assert(r@.events == on_key(self.trie(), c0, key_press).1.events);
        assert(r@.timer == on_key(self.trie(), c0, key_press).1.timer);
        assert(r@ == on_key(self.trie(), c0, key_press).1);
        r
    }

    /// Handles one raw key-down: `key` is the raw code, `modifiers` those
    /// held. A lone modifier is passed on untouched; any other key is
    /// normalized and handled as `on_key` says.
    pub fn handle(&mut self, key: u32, modifiers: &[Modifier]) -> (r: KeyOutcome<A, T>)
        requires
            old(self).wf(),
        ensures
            final(self).wf(),
            final(self).trie() == old(self).trie(),
            match raw_press(key, modifiers@) {
                Some(p) => (final(self)@, r@) == on_key(old(self).trie(), old(self)@, p),
                None => final(self)@ == old(self)@ && r@ == (KeyResult {
                    verdict: HookAction::PassOn,
                    decision: Decision::<A, T>::Nothing,
                    events: seq![],
                    timer: TimerCommand::Keep,
                    shutdown: false,
                }),
            },
    {
        if key == 91 || key == 92 || key == 93 || (160 <= key && key <= 165) {
            let events: Vec<Event<A, T>> = Vec::new();
            assert(notices(events@) =~= seq![]);
            return KeyOutcome {
                verdict: HookAction::PassOn,
                action: KeyHandlerAction::Nothing,
                events,
                timer: TimerCommand::Keep,
                shutdown: false,
            };
        }
        let mut alt = false;
        let mut i: usize = 0;
        while i < modifiers.len()
            invariant
                i <= modifiers@.len(),
                alt == exists|j: int| 0 <= j < i && modifiers@[j] == Modifier::ModAlt,
            decreases modifiers@.len() - i,
        {
            if modifiers[i] == Modifier::ModAlt {
                alt = true;
            }
            i = i + 1;
        }
        let modifier = if alt {
            Modifier::ModAlt
        } else {
            Modifier::NoMod
        };
        self.handle_key_press(KeyPress::Mod(Key::from_u8((key % 256) as u8), modifier))
    }

    /// Whether the debounce wait should keep sleeping: no retrigger, cancel
    /// or quit has been signalled.
    pub fn timer_waiting(&self) -> (r: bool)
        ensures
            r == (!self@.retrigger && !self@.quitting && !self@.cancelled),
    {
        !self.state.timeout_retrigger && !self.state.quitting && !self.state.timeout_cancelled
    }

    /// Decides what the debounce wait does after it woke: see `on_wake`.
    pub fn timer_wake(&mut self, timed_out: bool) -> (r: TimerOutcome<A, T>)
        ensures
            final(self).trie() == old(self).trie(),
            (final(self)@, r@) == on_wake(old(self)@, timed_out),
    {
        let ghost c0 = self@;
        if self.state.quitting {
            self.state.timeout_running = false;
            let events: Vec<Event<A, T>> = Vec::new();
            assert(notices(events@) =~= seq![]);
            return TimerOutcome::Finished(events);
        }
        if timed_out && !self.state.timeout_retrigger && !self.state.timeout_cancelled {
            let mut events: Vec<Event<A, T>> = Vec::new();
            if let Some(action) = self.state.timeout_action {
                events.push(Event::Single(action));
            }
            assert(notices(events@) =~= match c0.pending {
                Some(a) => seq![Notice::Single(a)],
                None => seq![],
            });
            let ghost first = notices(events@);
            if let Some(tag) = self.state.buffers.actions_on_timeout.tag {
                let batch = self.state.buffers.actions_on_timeout.duplicate();
                events.push(Event::Multi(tag, batch.actions));
                assert(notices(events@) =~= first.push(Notice::Multi(tag, c0.ledger.0)));
            }
            self.clear_state();
            self.state.timeout_running = false;
            return TimerOutcome::Finished(events);
        }
        if self.state.timeout_cancelled {
            self.clear_state();
            self.state.timeout_running = false;
            let events: Vec<Event<A, T>> = Vec::new();
            assert(notices(events@) =~= seq![]);
            return TimerOutcome::Finished(events);
        }
        self.state.timeout_retrigger = false;
        TimerOutcome::WaitAgain
    }

    /// Signals that the engine is shutting down: a waiting timer then ends
    /// without firing.
    pub fn quit(&mut self)
        ensures
            final(self).trie() == old(self).trie(),
            final(self)@ == (Coordination { quitting: true, ..old(self)@ }),
    {
        self.state.quitting = true;
    }

    /// The buffered prefix and the ledger.
    pub fn buffers(&self) -> (r: &Buffers<A, T>)
        ensures
            r@ == (self@.buffer, self@.ledger),
    {
        &self.state.buffers
    }

    /// The action a single step deferred to the quiet period, if any.
    pub fn pending_action(&self) -> (r: Option<A>)
        ensures
            r == self@.pending,
    {
        self.state.timeout_action
    }

    /// Whether a debounce wait is running.
    pub fn timer_running(&self) -> (r: bool)
        ensures
            r == self@.running,
    {
        self.state.timeout_running
    }
}

} // verus!
