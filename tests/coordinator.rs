use keyboard_hook::key_handler::{HookAction, KeyHandlerAction, KeypressHandler, TimerCommand, TimerOutcome};
use keyboard_hook::mapping_manager::Actions;
use keyboard_hook::mapping_trie::MappingTrie;
use keyboard_hook::types::Key::{Key1, Key2, Key3, KeyA, KeyK, KeyQ, KeyT, KeyW};
use keyboard_hook::types::Modifier::{ModAlt, NoMod};
use keyboard_hook::types::{Behaviour, Behaviours, Event, Key, KeyPress, Mapping, Modifier};

#[derive(Clone, Copy, Debug, PartialEq, Eq)]
enum Act {
    Princess,
    Kenny,
    Chan1,
    Chan2,
    Chan3,
    VolUp,
}

#[derive(Clone, Copy, Debug, PartialEq, Eq)]
enum Tag {
    TogChans,
    Volume,
}

use Act::{Princess, Kenny, Chan1, Chan2, Chan3, VolUp};
use Tag::{TogChans, Volume};

type M = Mapping<Act, Tag>;

fn kp(k: Key, m: Modifier) -> KeyPress {
    KeyPress::Mod(k, m)
}

fn t(k: Key, m: Modifier) -> M {
    Mapping::Single(Behaviour::Timeout(kp(k, m)))
}

fn c(members: Vec<Behaviour<Act>>, tag: Tag) -> M {
    Mapping::Choice(Behaviours(members), tag)
}

fn handler(mappings: Vec<Vec<M>>) -> KeypressHandler<Act, Tag> {
    KeypressHandler::new(MappingTrie::from_mappings(mappings))
}

fn channels() -> Vec<Vec<M>> {
    vec![vec![
        t(KeyA, ModAlt),
        c(
            vec![
                Behaviour::ActionOnTimeout(kp(Key1, NoMod), Chan1),
                Behaviour::ActionOnTimeout(kp(Key2, NoMod), Chan2),
                Behaviour::Action(kp(Key3, NoMod), Chan3),
            ],
            TogChans,
        ),
    ]]
}

const ALT_A: u32 = 65;
const ONE: u32 = 49;
const TWO: u32 = 50;
const THREE: u32 = 51;

#[test]
fn scenario_leader_then_choice_then_fire() {
    let mut h = handler(channels());
    let r = h.handle(ALT_A, &[ModAlt]);
    assert_eq!(r.verdict, HookAction::Suppress);
    assert_eq!(r.action, KeyHandlerAction::Timeout);
    assert_eq!(r.timer, TimerCommand::Start);
    assert!(r.events.is_empty());

    let r = h.handle(ONE, &[]);
    assert_eq!(r.verdict, HookAction::Suppress);
    assert_eq!(r.action, KeyHandlerAction::SendActionOnTimeout(Chan1));
    assert_eq!(r.timer, TimerCommand::Notify);
    assert!(r.events.is_empty());
    assert_eq!(h.buffers().actions_on_timeout, Actions::from(vec![Chan1], TogChans));

    let r = h.handle(TWO, &[]);
    assert_eq!(r.verdict, HookAction::Suppress);
    assert_eq!(r.action, KeyHandlerAction::SendActionsOnTimeout(Actions::from(vec![Chan1, Chan2], TogChans)));
    assert!(r.events.is_empty());

    // The wait wakes early on the retrigger, then runs a whole quiet period.
    assert!(!h.timer_waiting());
    assert_eq!(h.timer_wake(false), TimerOutcome::WaitAgain);
    assert!(h.timer_waiting());
    assert_eq!(h.timer_wake(true), TimerOutcome::Finished(vec![Event::Multi(TogChans, vec![Chan1, Chan2])]));
    assert!(h.buffers().key_buffer.get_keypresses().is_empty());
    assert_eq!(h.buffers().actions_on_timeout, Actions::empty());
    assert!(!h.timer_running());
}

#[test]
fn scenario_unmapped_key_resets() {
    let mut h = handler(channels());
    h.handle(ALT_A, &[ModAlt]);
    h.handle(ONE, &[]);
    h.handle(TWO, &[]);
    let r = h.handle(0x70, &[]);
    assert_eq!(r.verdict, HookAction::PassOn);
    assert_eq!(r.action, KeyHandlerAction::Nothing);
    assert_eq!(r.timer, TimerCommand::Notify);
    assert!(r.events.is_empty());
    assert_eq!(h.buffers().actions_on_timeout, Actions::empty());
    assert!(h.buffers().key_buffer.get_keypresses().is_empty());
    // The cancelled wait ends without firing.
    assert_eq!(h.timer_wake(true), TimerOutcome::Finished(vec![]));
    assert!(!h.timer_running());
}

#[test]
fn lone_modifier_is_passed_on() {
    let mut h = handler(channels());
    h.handle(ALT_A, &[ModAlt]);
    let r = h.handle(164, &[ModAlt]);
    assert_eq!(r.verdict, HookAction::PassOn);
    assert_eq!(r.timer, TimerCommand::Keep);
    assert_eq!(h.buffers().key_buffer.get_keypresses().len(), 1);
}

#[test]
fn next_key_after_mismatch_is_judged_from_root() {
    let mut h = handler(channels());
    h.handle(ALT_A, &[ModAlt]);
    h.handle(0x70, &[]);
    // `1` alone is no sequence start.
    assert_eq!(h.handle(ONE, &[]).action, KeyHandlerAction::Nothing);
    assert_eq!(h.handle(ALT_A, &[ModAlt]).action, KeyHandlerAction::Timeout);
}

#[test]
fn single_action_finishes_the_sequence() {
    let mut h = handler(vec![vec![
        t(KeyA, ModAlt),
        Mapping::Single(Behaviour::Action(kp(KeyW, NoMod), Kenny)),
    ]]);
    h.handle(ALT_A, &[ModAlt]);
    let r = h.handle(87, &[]);
    assert_eq!(r.events, vec![Event::Single(Kenny)]);
    assert_eq!(r.timer, TimerCommand::Notify);
    assert!(h.buffers().key_buffer.get_keypresses().is_empty());
    assert_eq!(h.timer_wake(false), TimerOutcome::Finished(vec![]));
    // Back at the root: `W` alone matches nothing.
    assert_eq!(h.handle(87, &[]).action, KeyHandlerAction::Nothing);
}

#[test]
fn choice_action_keeps_the_choice_open() {
    let mut h = handler(channels());
    h.handle(ALT_A, &[ModAlt]);
    let r = h.handle(THREE, &[]);
    assert_eq!(r.action, KeyHandlerAction::SendActionBeforeTimeout(Chan3));
    assert_eq!(r.events, vec![Event::Single(Chan3)]);
    let r = h.handle(ONE, &[]);
    assert_eq!(r.action, KeyHandlerAction::SendActionOnTimeout(Chan1));
    let r = h.handle(THREE, &[]);
    assert_eq!(r.events, vec![Event::Single(Chan3)]);
    assert_eq!(
        r.action,
        KeyHandlerAction::SendActionBeforeTimeoutAndOnTimeout { before: Chan3, on: Actions::from(vec![Chan1], TogChans) }
    );
    assert_eq!(h.buffers().key_buffer.get_keypresses().len(), 4);
}

#[test]
fn retriggers_hold_the_fire() {
    let mut h = handler(channels());
    h.handle(ALT_A, &[ModAlt]);
    h.handle(ONE, &[]);
    for _ in 0..5 {
        h.handle(ONE, &[]);
        assert_eq!(h.timer_wake(true), TimerOutcome::WaitAgain);
        assert!(h.timer_running());
    }
    assert_eq!(
        h.timer_wake(true),
        TimerOutcome::Finished(vec![Event::Multi(TogChans, vec![Chan1; 6])])
    );
    assert_eq!(h.timer_wake(true), TimerOutcome::Finished(vec![]));
}

#[test]
fn aggregate_keeps_order_and_duplicates() {
    let mut h = handler(channels());
    h.handle(ALT_A, &[ModAlt]);
    h.handle(ONE, &[]);
    h.handle(TWO, &[]);
    h.handle(ONE, &[]);
    assert_eq!(
        h.timer_wake(true),
        TimerOutcome::WaitAgain
    );
    assert_eq!(
        h.timer_wake(true),
        TimerOutcome::Finished(vec![Event::Multi(TogChans, vec![Chan1, Chan2, Chan1])])
    );
}

#[test]
fn single_deferred_action_fires_alone() {
    let mut h = handler(vec![vec![
        t(KeyA, ModAlt),
        Mapping::Single(Behaviour::ActionOnTimeout(kp(KeyQ, NoMod), Princess)),
    ]]);
    h.handle(ALT_A, &[ModAlt]);
    let r = h.handle(81, &[]);
    assert_eq!(r.action, KeyHandlerAction::SendActionOnTimeout(Princess));
    assert_eq!(h.pending_action(), Some(Princess));
    assert_eq!(h.timer_wake(false), TimerOutcome::WaitAgain);
    assert_eq!(h.timer_wake(true), TimerOutcome::Finished(vec![Event::Single(Princess)]));
    assert_eq!(h.pending_action(), None);
}

#[test]
fn shutdown_asks_to_terminate() {
    let mut h = handler(vec![vec![t(KeyA, ModAlt), Mapping::Single(Behaviour::Shutdown(kp(KeyT, NoMod)))]]);
    h.handle(ALT_A, &[ModAlt]);
    let r = h.handle(84, &[]);
    assert!(r.shutdown);
    assert_eq!(r.verdict, HookAction::Suppress);
    assert_eq!(r.action, KeyHandlerAction::StopTheHook);
    assert!(h.buffers().key_buffer.get_keypresses().is_empty());
}

#[test]
fn quit_ends_the_wait_without_firing() {
    let mut h = handler(channels());
    h.handle(ALT_A, &[ModAlt]);
    h.handle(ONE, &[]);
    h.quit();
    assert!(!h.timer_waiting());
    assert_eq!(h.timer_wake(true), TimerOutcome::Finished(vec![]));
    // Cleanup belongs to the shutdown: the ledger is left as it was.
    assert_eq!(h.buffers().actions_on_timeout, Actions::from(vec![Chan1], TogChans));
}

#[test]
fn replay_is_deterministic() {
    let keys: [(u32, &[Modifier]); 6] =
        [(ALT_A, &[ModAlt]), (ONE, &[]), (THREE, &[]), (TWO, &[]), (0x70, &[]), (ALT_A, &[ModAlt])];
    let mut h1 = handler(channels());
    let mut h2 = handler(channels());
    for (k, m) in keys.iter() {
        assert_eq!(h1.handle(*k, m), h2.handle(*k, m));
    }
    assert_eq!(h1.timer_wake(true), h2.timer_wake(true));
}

#[test]
fn volume_choice_delivers_each_press_at_once() {
    let mut h = handler(vec![vec![
        t(KeyA, ModAlt),
        c(vec![Behaviour::Action(kp(KeyK, NoMod), VolUp)], Volume),
    ]]);
    h.handle(ALT_A, &[ModAlt]);
    for _ in 0..3 {
        assert_eq!(h.handle(75, &[]).events, vec![Event::Single(VolUp)]);
    }
    assert_eq!(h.timer_wake(false), TimerOutcome::WaitAgain);
    assert_eq!(h.timer_wake(true), TimerOutcome::Finished(vec![]));
}
