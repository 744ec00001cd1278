//! The aggregation ledger, and the decision that one matched key produces.
use vstd::prelude::*;

use crate::key_handler::{Buffers, Decision, KeyHandlerAction};
use crate::mapping_trie::MappingTrie;
use crate::types::{first_with_press, Behaviour, KeyPress, Mapping};

verus! {

/// The ledger: the actions collected so far in one choice episode, in press
/// order with duplicates, and the choice's tag (`None` while empty).
#[derive(Debug, PartialEq, Eq)]
pub struct Actions<A, T> {
    pub actions: Vec<A>,
    pub tag: Option<T>,
}

impl<A, T> View for Actions<A, T> {
    type V = (Seq<A>, Option<T>);

    open spec fn view(&self) -> (Seq<A>, Option<T>) {
        (self.actions@, self.tag)
    }
}

/// How a ledger is re-expressed as a deferred decision: one entry stands
/// alone, anything else is a tagged batch.
pub open spec fn collapse<A, T>(l: (Seq<A>, Option<T>)) -> Decision<A, T> {
    if l.0.len() == 1 {
        Decision::SendActionOnTimeout(l.0[0])
    } else {
        Decision::SendActionsOnTimeout(l.0, l.1)
    }
}

/// The decision for `key` matched to `m`, and the ledger after it.
pub open spec fn decide<A, T>(m: Mapping<A, T>, key: KeyPress, l: (Seq<A>, Option<T>)) -> (Decision<A, T>, (Seq<A>, Option<T>)) {
    match m {
        Mapping::Single(b) => (
            match b {
                Behaviour::Timeout(_) => Decision::Timeout,
                Behaviour::Action(_, a) => Decision::SendAction(a),
                Behaviour::ActionOnTimeout(_, a) => Decision::SendActionOnTimeout(a),
                Behaviour::Shutdown(_) => Decision::StopTheHook,
            },
            l,
        ),
        Mapping::Choice(bs, tag) => match first_with_press(bs.0@, key) {
            None => (Decision::Nothing, l),
            Some(j) => match bs.0@[j] {
                Behaviour::Timeout(_) => if l.1 is None {
                    (Decision::Timeout, l)
                } else {
                    (collapse(l), l)
                },
                Behaviour::Action(_, a) => if l.1 is None {
                    (Decision::SendActionBeforeTimeout(a), l)
                } else {
                    (Decision::SendActionBeforeTimeoutAndOnTimeout(a, l.0, l.1), l)
                },
                Behaviour::ActionOnTimeout(_, a) => {
                    let l2 = (l.0.push(a), if l.1 is None { Some(tag) } else { l.1 });
                    (collapse(l2), l2)
                },
                Behaviour::Shutdown(_) => (Decision::StopTheHook, l),
            },
        },
    }
}

/// The decision for `key` after the prefix `buf`, given what the trie found
/// for them, with the buffer and ledger after it. A match extends the buffer;
/// an immediate single action then resets buffer and ledger.
pub open spec fn advance<A, T>(
    found: Option<Mapping<A, T>>,
    key: KeyPress,
    bufs: (Seq<KeyPress>, (Seq<A>, Option<T>)),
) -> (Decision<A, T>, (Seq<KeyPress>, (Seq<A>, Option<T>))) {
    match found {
        None => (Decision::Nothing, bufs),
        Some(m) => {
            let (d, l) = decide(m, key, bufs.1);
            if d is SendAction {
                (d, (seq![], (seq![], None)))
            } else {
                (d, (bufs.0.push(key), l))
            }
        },
    }
}

impl<A: Copy, T: Copy> Actions<A, T> {
    /// An empty ledger.
    pub fn empty() -> (r: Self)
        ensures
            r@ == (Seq::<A>::empty(), None::<T>),
    {
        Self { actions: Vec::new(), tag: None }
    }

    /// A ledger holding `actions` under `tag`.
    pub fn from(actions: Vec<A>, tag: T) -> (r: Self)
        ensures
            r@ == (actions@, Some(tag)),
    {
        Self { actions, tag: Some(tag) }
    }

    /// The collected actions.
    pub fn get_actions_on_timeout(&self) -> (r: &Vec<A>)
        ensures
            r@ == self@.0,
    {
        &self.actions
    }

    /// Appends `action` and sets the tag to `tag`.
    pub fn push(&mut self, action: A, tag: T)
        ensures
            final(self)@ == (old(self)@.0.push(action), Some(tag)),
    {
        self.actions.push(action);
        self.tag = Some(tag);
    }

    /// Appends `action`, keeping the tag.
    pub fn push_action(&mut self, action: A)
        ensures
            final(self)@ == (old(self)@.0.push(action), old(self)@.1),
    {
        self.actions.push(action);
    }

    /// Empties both the actions and the tag.
    pub fn clear(&mut self)
        ensures
            final(self)@ == (Seq::<A>::empty(), None::<T>),
    {
        self.actions.clear();
        self.tag = None;
    }

    /// The tag, `None` while the ledger is empty.
    pub fn get_tag(&self) -> (r: &Option<T>)
        ensures
            *r == self@.1,
    {
        &self.tag
    }

    /// A ledger with the same content.
    pub fn duplicate(&self) -> (r: Self)
        ensures
            r@ == self@,
    {
        let mut actions: Vec<A> = Vec::new();
        let mut i: usize = 0;
        while i < self.actions.len()
            invariant
                i <= self.actions@.len(),
                actions@ == self.actions@.take(i as int),
            decreases self.actions@.len() - i,
        {
            actions.push(self.actions[i]);
            i = i + 1;
        }
        assert(self.actions@.take(i as int) == self.actions@);
        Self { actions, tag: self.tag }
    }

    /// This ledger as a deferred decision: its one action alone, or the
    /// whole tagged batch.
    pub fn collapse(&self) -> (r: KeyHandlerAction<A, T>)
        ensures
            r@ == collapse(self@),
    {
        if self.actions.len() == 1 {
            KeyHandlerAction::SendActionOnTimeout(self.actions[0])
        } else {
            KeyHandlerAction::SendActionsOnTimeout(self.duplicate())
        }
    }
}

/// The decision for `key`, matched to `mapping`, updating the ledger
/// `actions` for choice steps.
pub fn to_handler_action<A: Copy, T: Copy>(
    mapping: &Mapping<A, T>,
    key: &KeyPress,
    actions: &mut Actions<A, T>,
) -> (r: KeyHandlerAction<A, T>)
    ensures
        (r@, final(actions)@) == decide(*mapping, *key, old(actions)@),
{
    match mapping {
        Mapping::Single(behaviour) => match behaviour {
            Behaviour::Timeout(_) => KeyHandlerAction::Timeout,
            Behaviour::Action(_, action) => KeyHandlerAction::SendAction(*action),
            Behaviour::ActionOnTimeout(_, action) => KeyHandlerAction::SendActionOnTimeout(*action),
            Behaviour::Shutdown(_) => KeyHandlerAction::StopTheHook,
        },
        Mapping::Choice(behaviours, tag) => {
            let empty = actions.get_tag().is_none();
            match behaviours.get_mapping(key) {
                None => KeyHandlerAction::Nothing,
                Some(member) => match member {
                    Behaviour::Timeout(_) => if empty {
                        KeyHandlerAction::Timeout
                    } else {
                        actions.collapse()
                    },
                    Behaviour::Action(_, action) => if empty {
                        KeyHandlerAction::SendActionBeforeTimeout(*action)
                    } else {
                        KeyHandlerAction::SendActionBeforeTimeoutAndOnTimeout {
                            before: *action,
                            on: actions.duplicate(),
                        }
                    },
                    Behaviour::ActionOnTimeout(_, action) => {
                        if empty {
                            actions.push(*action, *tag);
                        } else {
                            actions.push_action(*action);
                        }
                        actions.collapse()
                    },
                    Behaviour::Shutdown(_) => KeyHandlerAction::StopTheHook,
                },
            }
        },
    }
}

/// Applies `mapping`, which the trie found for `key_press`: the key joins
/// the buffer and the ledger is updated; an immediate single action then
/// resets both.
pub fn apply_mapping<A: Copy, T: Copy>(
    mapping: &Mapping<A, T>,
    key_press: &KeyPress,
    buffers: &mut Buffers<A, T>,
) -> (r: KeyHandlerAction<A, T>)
    ensures
        (r@, final(buffers)@) == advance(Some(*mapping), *key_press, old(buffers)@),
{
    buffers.key_buffer.push(*key_press);
    let action = to_handler_action(mapping, key_press, &mut buffers.actions_on_timeout);
    if let KeyHandlerAction::SendAction(_) = action {
        buffers.key_buffer.clear();
        buffers.actions_on_timeout.clear();
    }
    action
}

/// Looks `key_press` up after the buffered prefix and applies what it finds;
/// without a match, nothing changes and the decision is `Nothing`.
pub fn find_mapping<A: Copy, T: Copy>(
    key_press: &KeyPress,
    trie: &MappingTrie<A, T>,
    buffers: &mut Buffers<A, T>,
) -> (r: KeyHandlerAction<A, T>)
    requires
        trie.wf(),
    ensures
        (r@, final(buffers)@) == advance(trie.lookup(old(buffers)@.0, *key_press), *key_press, old(buffers)@),
{
    match trie.find_mapping(key_press, buffers.key_buffer.get_keypresses().as_slice()) {
        Some(m) => apply_mapping(m, key_press, buffers),
        None => KeyHandlerAction::Nothing,
    }
}

} // verus!
