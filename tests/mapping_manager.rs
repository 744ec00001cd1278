use keyboard_hook::key_handler::{Buffers, KeyHandlerAction};
use keyboard_hook::mapping_manager::{find_mapping, Actions};
use keyboard_hook::mapping_trie::MappingTrie;
use keyboard_hook::types::Key::{Key1, Key2, Key3, Key4, Key5, KeyA, KeyB, KeyE, KeyI, KeyJ, KeyK, KeyQ, KeyT, KeyW, KeyX};
use keyboard_hook::types::Modifier::{ModAlt, NoMod};
use keyboard_hook::types::{Behaviour, Behaviours, Key, KeyPress, Mapping, Modifier};

#[derive(Clone, Copy, Debug, PartialEq, Eq)]
enum TestAction {
    Princess,
    Kenny,
    VolUp,
    VolDown,
    Chan1,
    Chan2,
    Chan3,
    Chan4,
    Chan5,
}

#[derive(Clone, Copy, Debug, PartialEq, Eq)]
enum TestTag {
    Volume,
    TogChans,
}

use TestAction::{Princess, Kenny, VolUp, VolDown, Chan1, Chan2, Chan3, Chan4, Chan5};
use TestTag::{Volume, TogChans};

type M = Mapping<TestAction, TestTag>;
type H = KeyHandlerAction<TestAction, TestTag>;

fn key(k: Key) -> KeyPress {
    KeyPress::Mod(k, NoMod)
}

fn alt(k: Key) -> KeyPress {
    KeyPress::Mod(k, ModAlt)
}

fn t(k: Key, m: Modifier) -> M {
    Mapping::Single(Behaviour::Timeout(KeyPress::Mod(k, m)))
}

fn a(k: Key, m: Modifier, action: TestAction) -> M {
    Mapping::Single(Behaviour::Action(KeyPress::Mod(k, m), action))
}

fn aot(k: Key, m: Modifier, action: TestAction) -> M {
    Mapping::Single(Behaviour::ActionOnTimeout(KeyPress::Mod(k, m), action))
}

fn shutdown(k: Key) -> M {
    Mapping::Single(Behaviour::Shutdown(key(k)))
}

fn key_aot(k: Key, action: TestAction) -> Behaviour<TestAction> {
    Behaviour::ActionOnTimeout(key(k), action)
}

fn key_a(k: Key, action: TestAction) -> Behaviour<TestAction> {
    Behaviour::Action(key(k), action)
}

fn key_t(k: Key) -> Behaviour<TestAction> {
    Behaviour::Timeout(key(k))
}

fn c(members: Vec<Behaviour<TestAction>>, tag: TestTag) -> M {
    Mapping::Choice(Behaviours(members), tag)
}

fn t_actions(actions: Vec<TestAction>, tag: TestTag) -> H {
    KeyHandlerAction::SendActionsOnTimeout(Actions::from(actions, tag))
}

fn actions(before: TestAction, on: Vec<TestAction>, tag: TestTag) -> H {
    KeyHandlerAction::SendActionBeforeTimeoutAndOnTimeout { before, on: Actions::from(on, tag) }
}

fn run(mappings: Vec<Vec<M>>, keypresses: &[KeyPress]) -> Vec<H> {
    let trie = MappingTrie::from_mappings(mappings);
    let mut buffers = Buffers::new();
    let mut result = vec![];
    for k in keypresses {
        result.push(find_mapping(k, &trie, &mut buffers));
    }
    result
}

fn demo_mappings() -> Vec<Vec<M>> {
    vec![
        vec![t(KeyA, ModAlt), t(KeyE, NoMod), t(KeyX, NoMod), t(KeyI, NoMod), shutdown(KeyT)],
        vec![t(KeyA, ModAlt), aot(KeyQ, NoMod, Princess)],
        vec![t(KeyA, ModAlt), a(KeyW, NoMod, Kenny)],
        vec![
            t(KeyA, ModAlt),
            c(
                vec![
                    key_aot(Key1, Chan1),
                    key_aot(Key2, Chan2),
                    key_aot(Key3, Chan3),
                    key_aot(Key4, Chan4),
                    key_aot(Key5, Chan5),
                ],
                TogChans,
            ),
        ],
        vec![t(KeyA, ModAlt), c(vec![key_a(KeyJ, VolDown), key_a(KeyK, VolUp)], Volume)],
    ]
}

#[test]
fn timeout_for_key_without_modifier() {
    assert_eq!(run(vec![vec![t(KeyA, NoMod)]], &[key(KeyA)]), vec![KeyHandlerAction::Timeout]);
}

#[test]
fn nothing_if_key_does_not_match() {
    assert_eq!(run(vec![vec![t(KeyA, NoMod)]], &[key(KeyX)]), vec![KeyHandlerAction::Nothing]);
}

#[test]
fn timeout_for_key_with_modifier() {
    assert_eq!(run(vec![vec![t(KeyA, ModAlt)]], &[alt(KeyA)]), vec![KeyHandlerAction::Timeout]);
}

#[test]
fn nothing_if_modifier_does_not_match() {
    assert_eq!(run(vec![vec![t(KeyA, ModAlt)]], &[key(KeyA)]), vec![KeyHandlerAction::Nothing]);
}

#[test]
fn immediate_action_without_modifier() {
    assert_eq!(
        run(vec![vec![a(KeyA, NoMod, VolUp)]], &[key(KeyA)]),
        vec![KeyHandlerAction::SendAction(VolUp)]
    );
}

#[test]
fn immediate_action_with_modifier() {
    assert_eq!(
        run(vec![vec![a(KeyA, ModAlt, VolUp)]], &[alt(KeyA)]),
        vec![KeyHandlerAction::SendAction(VolUp)]
    );
}

#[test]
fn action_on_timeout_without_modifier() {
    assert_eq!(
        run(vec![vec![aot(KeyA, NoMod, VolUp)]], &[key(KeyA)]),
        vec![KeyHandlerAction::SendActionOnTimeout(VolUp)]
    );
}

#[test]
fn action_on_timeout_with_modifier() {
    assert_eq!(
        run(vec![vec![aot(KeyA, ModAlt, VolUp)]], &[alt(KeyA)]),
        vec![KeyHandlerAction::SendActionOnTimeout(VolUp)]
    );
}

#[test]
fn nothing_if_first_key_of_sequence_does_not_match() {
    assert_eq!(
        run(vec![vec![t(KeyA, NoMod), a(KeyB, NoMod, VolUp)]], &[key(KeyB)]),
        vec![KeyHandlerAction::Nothing]
    );
}

#[test]
fn action_after_matching_sequence() {
    assert_eq!(
        run(vec![vec![t(KeyA, NoMod), a(KeyB, NoMod, VolUp)]], &[key(KeyA), key(KeyB)]),
        vec![KeyHandlerAction::Timeout, KeyHandlerAction::SendAction(VolUp)]
    );
}

#[test]
fn action_resets_the_sequence() {
    assert_eq!(
        run(vec![vec![a(KeyA, NoMod, VolUp), a(KeyB, NoMod, VolDown)]], &[key(KeyA), key(KeyB)]),
        vec![KeyHandlerAction::SendAction(VolUp), KeyHandlerAction::Nothing]
    );
}

#[test]
fn aggregates_actions_on_timeout() {
    let m = vec![vec![t(KeyA, NoMod), c(vec![key_aot(Key1, Chan1), key_aot(Key2, Chan2)], TogChans)]];
    assert_eq!(
        run(m, &[key(KeyA), key(Key1), key(Key2)]),
        vec![
            KeyHandlerAction::Timeout,
            KeyHandlerAction::SendActionOnTimeout(Chan1),
            t_actions(vec![Chan1, Chan2], TogChans),
        ]
    );
}

#[test]
fn aggregates_actions_on_timeout_in_press_order() {
    let m = vec![vec![t(KeyA, NoMod), c(vec![key_aot(Key1, Chan1), key_aot(Key2, Chan2)], TogChans)]];
    assert_eq!(
        run(m, &[key(KeyA), key(Key2), key(Key1)]),
        vec![
            KeyHandlerAction::Timeout,
            KeyHandlerAction::SendActionOnTimeout(Chan2),
            t_actions(vec![Chan2, Chan1], TogChans),
        ]
    );
}

#[test]
fn aggregates_repeated_actions() {
    let m = vec![vec![t(KeyA, NoMod), c(vec![key_aot(Key1, Chan1), key_aot(Key2, Chan2)], TogChans)]];
    assert_eq!(
        run(m, &[key(KeyA), key(Key1), key(Key2), key(Key1)]),
        vec![
            KeyHandlerAction::Timeout,
            KeyHandlerAction::SendActionOnTimeout(Chan1),
            t_actions(vec![Chan1, Chan2], TogChans),
            t_actions(vec![Chan1, Chan2, Chan1], TogChans),
        ]
    );
}

#[test]
fn timeout_keys_in_aggregates() {
    let m = vec![vec![t(KeyA, NoMod), c(vec![key_t(Key1), key_aot(Key2, Chan2)], TogChans)]];
    assert_eq!(
        run(m, &[key(KeyA), key(Key1), key(Key2), key(Key1)]),
        vec![
            KeyHandlerAction::Timeout,
            KeyHandlerAction::Timeout,
            KeyHandlerAction::SendActionOnTimeout(Chan2),
            KeyHandlerAction::SendActionOnTimeout(Chan2),
        ]
    );
}

#[test]
fn immediate_action_then_aggregated_actions() {
    let m = vec![vec![
        t(KeyA, NoMod),
        c(vec![key_aot(Key1, Chan1), key_aot(Key2, Chan2), key_a(Key3, Chan3)], TogChans),
    ]];
    assert_eq!(
        run(m, &[key(KeyA), key(Key1), key(Key2), key(Key3)]),
        vec![
            KeyHandlerAction::Timeout,
            KeyHandlerAction::SendActionOnTimeout(Chan1),
            t_actions(vec![Chan1, Chan2], TogChans),
            actions(Chan3, vec![Chan1, Chan2], TogChans),
        ]
    );
}

#[test]
fn demo_leader_key() {
    assert_eq!(run(demo_mappings(), &[alt(KeyA)]), vec![KeyHandlerAction::Timeout]);
}

#[test]
fn demo_first_exit_key() {
    assert_eq!(
        run(demo_mappings(), &[alt(KeyA), key(KeyE)]),
        vec![KeyHandlerAction::Timeout, KeyHandlerAction::Timeout]
    );
}

#[test]
fn demo_second_exit_key() {
    assert_eq!(
        run(demo_mappings(), &[alt(KeyA), key(KeyE), key(KeyX)]),
        vec![KeyHandlerAction::Timeout, KeyHandlerAction::Timeout, KeyHandlerAction::Timeout]
    );
}

#[test]
fn demo_third_exit_key() {
    assert_eq!(
        run(demo_mappings(), &[alt(KeyA), key(KeyE), key(KeyX), key(KeyI)]),
        vec![
            KeyHandlerAction::Timeout,
            KeyHandlerAction::Timeout,
            KeyHandlerAction::Timeout,
            KeyHandlerAction::Timeout,
        ]
    );
}

#[test]
fn demo_exit_sequence_stops_the_hook() {
    assert_eq!(
        run(demo_mappings(), &[alt(KeyA), key(KeyE), key(KeyX), key(KeyI), key(KeyT)]),
        vec![
            KeyHandlerAction::Timeout,
            KeyHandlerAction::Timeout,
            KeyHandlerAction::Timeout,
            KeyHandlerAction::Timeout,
            KeyHandlerAction::StopTheHook,
        ]
    );
}

#[test]
fn demo_action_on_timeout() {
    assert_eq!(
        run(demo_mappings(), &[alt(KeyA), key(KeyQ)]),
        vec![KeyHandlerAction::Timeout, KeyHandlerAction::SendActionOnTimeout(Princess)]
    );
}

#[test]
fn demo_immediate_action() {
    assert_eq!(
        run(demo_mappings(), &[alt(KeyA), key(KeyW)]),
        vec![KeyHandlerAction::Timeout, KeyHandlerAction::SendAction(Kenny)]
    );
}

#[test]
fn demo_channel_choice() {
    assert_eq!(
        run(
            demo_mappings(),
            &[alt(KeyA), key(Key1), key(Key2), key(Key3), key(Key4), key(Key5), key(Key3)]
        ),
        vec![
            KeyHandlerAction::Timeout,
            KeyHandlerAction::SendActionOnTimeout(Chan1),
            t_actions(vec![Chan1, Chan2], TogChans),
            t_actions(vec![Chan1, Chan2, Chan3], TogChans),
            t_actions(vec![Chan1, Chan2, Chan3, Chan4], TogChans),
            t_actions(vec![Chan1, Chan2, Chan3, Chan4, Chan5], TogChans),
            t_actions(vec![Chan1, Chan2, Chan3, Chan4, Chan5, Chan3], TogChans),
        ]
    );
}

#[test]
fn demo_volume_choice() {
    assert_eq!(
        run(demo_mappings(), &[alt(KeyA), key(KeyJ), key(KeyJ), key(KeyK), key(KeyK), key(KeyK)]),
        vec![
            KeyHandlerAction::Timeout,
            KeyHandlerAction::SendActionBeforeTimeout(VolDown),
            KeyHandlerAction::SendActionBeforeTimeout(VolDown),
            KeyHandlerAction::SendActionBeforeTimeout(VolUp),
            KeyHandlerAction::SendActionBeforeTimeout(VolUp),
            KeyHandlerAction::SendActionBeforeTimeout(VolUp),
        ]
    );
}
