//! What the engine guarantees across several keys and timer wakes, stated
//! over the contracts of the trie and the coordinator, and proved.
use vstd::prelude::*;

use crate::key_handler::{
    arm, cleared, fire_events, fresh, on_key, on_wake, Coordination, Decision, KeyResult,
};
use crate::mapping_trie::{
    compiled, lemma_compiled_extends, lemma_first_edge_bounds, lemma_resolve_stable, mapping_at, resolve, step, walk, MappingTrie,
};
use crate::types::{first_with_press, Behaviour, Behaviours, KeyPress, Mapping, Notice};

verus! {

/// The states and outcomes of feeding `keys` one after another to a
/// coordinator over `trie` that starts in state `c`.
pub open spec fn replay<A, T>(trie: MappingTrie<A, T>, c: Coordination<A, T>, keys: Seq<KeyPress>) -> (Coordination<A, T>, Seq<KeyResult<A, T>>)
    decreases keys.len(),
{
    if keys.len() == 0 {
        (c, seq![])
    } else {
        let (c1, rs) = replay(trie, c, keys.drop_last());
        let (c2, r) = on_key(trie, c1, keys.last());
        (c2, rs.push(r))
    }
}

/// Two tries compiled from the same sequences behave the same: replaying
/// one key stream through fresh coordinators over them gives the same
/// outcomes and the same final state.
pub proof fn lemma_replay_deterministic<A, T>(
    t1: MappingTrie<A, T>,
    t2: MappingTrie<A, T>,
    mappings: Seq<Vec<Mapping<A, T>>>,
    keys: Seq<KeyPress>,
)
    requires
        t1.sequences() == mappings,
        t2.sequences() == mappings,
        t1.shape() == compiled(mappings, mappings.len() as int),
        t2.shape() == compiled(mappings, mappings.len() as int),
    ensures
        replay(t1, fresh(), keys) == replay(t2, fresh(), keys),
    decreases keys.len(),
{
    if keys.len() > 0 {
        lemma_replay_deterministic(t1, t2, mappings, keys.drop_last());
    }
}

/// After a key that matches nothing, buffer, ledger and pending action are
/// empty, and the next key is judged exactly as from a fresh start: same
/// decision, events, verdict, and same buffer, ledger and pending action after.
pub proof fn lemma_reset_complete<A, T>(trie: MappingTrie<A, T>, c: Coordination<A, T>, key: KeyPress, next: KeyPress)
    requires
        on_key(trie, c, key).1.decision is Nothing,
    ensures
        ({
            let c1 = on_key(trie, c, key).0;
            let (a, ra) = on_key(trie, c1, next);
            let (b, rb) = on_key(trie, fresh(), next);
            &&& c1.buffer == Seq::<KeyPress>::empty()
            &&& c1.ledger == (Seq::<A>::empty(), None::<T>)
            &&& c1.pending is None
            &&& ra.decision == rb.decision
            &&& ra.events == rb.events
            &&& ra.verdict == rb.verdict
            &&& ra.shutdown == rb.shutdown
            &&& a.buffer == b.buffer
            &&& a.ledger == b.ledger
            &&& a.pending == b.pending
        }),
{
    let c1 = on_key(trie, c, key).0;
    assert(c1.buffer == fresh::<A, T>().buffer);
    assert(c1.ledger == fresh::<A, T>().ledger);
}

/// A single step's immediate action finishes the sequence: it goes out at
/// once, and buffer, ledger and pending action are empty after it, so the
/// next key is matched from the root. A running timer is cancelled.
pub proof fn lemma_single_action_terminal<A, T>(
    trie: MappingTrie<A, T>,
    c: Coordination<A, T>,
    key: KeyPress,
    press: KeyPress,
    a: A,
)
    requires
        trie.lookup(c.buffer, key) == Some(Mapping::<A, T>::Single(Behaviour::Action(press, a))),
    ensures
        ({
            let (c1, r) = on_key(trie, c, key);
            &&& r.decision == Decision::<A, T>::SendAction(a)
            &&& r.events == seq![Notice::<A, T>::Single(a)]
            &&& c1.buffer == Seq::<KeyPress>::empty()
            &&& c1.ledger == (Seq::<A>::empty(), None::<T>)
            &&& c1.pending is None
            &&& c.running ==> c1.cancelled
        }),
{
}

/// After a member of a choice, every member of that choice is still
/// matched to the same choice: the repeatable step stays open.
pub proof fn lemma_choice_stays_open<A, T>(
    trie: MappingTrie<A, T>,
    buf: Seq<KeyPress>,
    key: KeyPress,
    member: KeyPress,
)
    requires
        trie.wf(),
        trie.lookup(buf, key) matches Some(Mapping::Choice(bs, _)) && first_with_press(bs.0@, member) is Some,
    ensures
        trie.lookup(buf.push(key), member) == trie.lookup(buf, key),
{
    let seqs = trie.sequences();
    let sh = trie.shape();
    let n = walk(seqs, sh, buf.push(key)).unwrap();
    assert(buf.push(key).push(member).drop_last() == buf.push(key));
    assert(0 <= n < sh.nodes.len()) by {
        lemma_walk_in_range(trie, buf.push(key));
    }
    assert(step(seqs, sh, n, member) == Some(n));
}

/// Every node that a walk reaches exists.
proof fn lemma_walk_in_range<A, T>(trie: MappingTrie<A, T>, buf: Seq<KeyPress>)
    requires
        trie.wf(),
    ensures
        walk(trie.sequences(), trie.shape(), buf) matches Some(n) ==> 0 <= n < trie.shape().nodes.len(),
    decreases buf.len(),
{
    if buf.len() > 0 {
        lemma_walk_in_range(trie, buf.drop_last());
        let seqs = trie.sequences();
        let sh = trie.shape();
        if let Some(n) = walk(seqs, sh, buf.drop_last()) {
            lemma_first_edge_bounds(sh.edges, n, buf.last());
        }
    }
}

/// An immediate action of a choice member goes out at once but leaves the
/// choice open: the key joins the buffer, the ledger is kept, the timer
/// runs, and every member of the choice is still matched to it.
pub proof fn lemma_choice_action_non_terminal<A, T>(
    trie: MappingTrie<A, T>,
    c: Coordination<A, T>,
    key: KeyPress,
    member: KeyPress,
    bs: Behaviours<A>,
    tag: T,
    j: int,
    press: KeyPress,
    a: A,
)
    requires
        trie.wf(),
        trie.lookup(c.buffer, key) == Some(Mapping::Choice(bs, tag)),
        first_with_press(bs.0@, key) == Some(j),
        bs.0@[j] == Behaviour::Action(press, a),
        first_with_press(bs.0@, member) is Some,
    ensures
        ({
            let (c1, r) = on_key(trie, c, key);
            &&& r.events == seq![Notice::<A, T>::Single(a)]
            &&& c1.buffer == c.buffer.push(key)
            &&& c1.ledger == c.ledger
            &&& c1.running
            &&& !c1.cancelled
            &&& trie.lookup(c1.buffer, member) == Some(Mapping::Choice(bs, tag))
        }),
{
    lemma_choice_stays_open(trie, c.buffer, key, member);
}

/// `c` after one round per entry of `timeouts`: a key retriggers the timer,
/// then the wait wakes (at the end of the period or not, as the entry says).
/// The flag tells whether any of those wakes ended the wait.
pub open spec fn retrigger_rounds<A, T>(c: Coordination<A, T>, timeouts: Seq<bool>) -> (Coordination<A, T>, bool)
    decreases timeouts.len(),
{
    if timeouts.len() == 0 {
        (c, false)
    } else {
        let (c1, ended) = retrigger_rounds(c, timeouts.drop_last());
        let (c2, o) = on_wake(arm(c1).0, timeouts.last());
        (c2, ended || o is Some)
    }
}

/// Retriggers within the quiet period, any number of them, keep the wait
/// alive and fire nothing; buffer, ledger and pending action stay as they were.
pub proof fn lemma_retriggers_hold_fire<A, T>(c: Coordination<A, T>, timeouts: Seq<bool>)
    requires
        c.running,
        !c.quitting,
    ensures
        ({
            let (c1, ended) = retrigger_rounds(c, timeouts);
            &&& !ended
            &&& c1.running
            &&& !c1.quitting
            &&& c1.buffer == c.buffer
            &&& c1.ledger == c.ledger
            &&& c1.pending == c.pending
            &&& timeouts.len() > 0 ==> !c1.retrigger && !c1.cancelled
        }),
    decreases timeouts.len(),
{
    if timeouts.len() > 0 {
        lemma_retriggers_hold_fire(c, timeouts.drop_last());
    }
}

/// A whole quiet period with no retrigger, cancel or quit fires exactly
/// once: the pending action and the ledger's batch go out, the timer stops,
/// and nothing is left that a later fire could deliver again.
pub proof fn lemma_quiet_period_fires_once<A, T>(c: Coordination<A, T>)
    requires
        c.running,
        !c.quitting,
        !c.retrigger,
        !c.cancelled,
    ensures
        ({
            let (c1, o) = on_wake(c, true);
            &&& o == Some(fire_events(c))
            &&& c1 == (Coordination { running: false, ..cleared(c) })
            &&& fire_events(c1) == Seq::<Notice<A, T>>::empty()
        }),
{
    let c1 = on_wake(c, true).0;
    assert(fire_events(c1) =~= Seq::<Notice<A, T>>::empty());
}

/// The action that a behaviour defers to the quiet period, if any.
pub open spec fn deferred_action<A>(b: Behaviour<A>) -> Option<A> {
    match b {
        Behaviour::ActionOnTimeout(_, a) => Some(a),
        _ => None,
    }
}

/// Pressing members of one choice whose behaviours defer `acts`, starting
/// with an empty ledger, collects `acts` in press order, duplicates
/// included, delivers nothing before the quiet period, and then fires them
/// as one tagged batch.
pub proof fn lemma_aggregate_in_order<A, T>(
    trie: MappingTrie<A, T>,
    c: Coordination<A, T>,
    keys: Seq<KeyPress>,
    bs: Behaviours<A>,
    tag: T,
    acts: Seq<A>,
)
    requires
        trie.wf(),
        keys.len() >= 1,
        acts.len() == keys.len(),
        !c.quitting,
        c.ledger == (Seq::<A>::empty(), None::<T>),
        trie.lookup(c.buffer, keys[0]) == Some(Mapping::Choice(bs, tag)),
        forall|i: int| 0 <= i < keys.len() ==>
            (first_with_press(bs.0@, #[trigger] keys[i]) matches Some(j) && deferred_action(bs.0@[j]) == Some(acts[i])),
    ensures
        ({
            let (c1, rs) = replay(trie, c, keys);
            &&& c1.buffer == c.buffer + keys
            &&& c1.ledger == (acts, Some(tag))
            &&& c1.pending is None
            &&& forall|i: int| 0 <= i < rs.len() ==> (#[trigger] rs[i]).events == Seq::<Notice<A, T>>::empty()
            &&& on_wake(Coordination { retrigger: false, ..c1 }, true).1 == Some(seq![Notice::Multi(tag, acts)])
        }),
{
    lemma_aggregate_prefix(trie, c, keys, bs, tag, acts, keys.len() as int);
    assert(keys.take(keys.len() as int) == keys);
    assert(acts.take(acts.len() as int) == acts);
    let c1 = replay(trie, c, keys).0;
    assert(fire_events(c1) =~= seq![Notice::Multi(tag, acts)]);
}

proof fn lemma_aggregate_prefix<A, T>(
    trie: MappingTrie<A, T>,
    c: Coordination<A, T>,
    keys: Seq<KeyPress>,
    bs: Behaviours<A>,
    tag: T,
    acts: Seq<A>,
    n: int,
)
    requires
        trie.wf(),
        1 <= n <= keys.len(),
        acts.len() == keys.len(),
        !c.quitting,
        c.ledger == (Seq::<A>::empty(), None::<T>),
        trie.lookup(c.buffer, keys[0]) == Some(Mapping::Choice(bs, tag)),
        forall|i: int| 0 <= i < keys.len() ==>
            (first_with_press(bs.0@, #[trigger] keys[i]) matches Some(j) && deferred_action(bs.0@[j]) == Some(acts[i])),
    ensures
        ({
            let (c1, rs) = replay(trie, c, keys.take(n));
            &&& c1.buffer == c.buffer + keys.take(n)
            &&& c1.ledger == (acts.take(n), Some(tag))
            &&& c1.pending is None
            &&& c1.running
            &&& !c1.cancelled
            &&& !c1.quitting
            &&& rs.len() == n
            &&& forall|i: int| 0 <= i < rs.len() ==> (#[trigger] rs[i]).events == Seq::<Notice<A, T>>::empty()
            &&& forall|k: KeyPress| first_with_press(bs.0@, k) is Some ==>
                trie.lookup(c1.buffer, k) == Some(Mapping::Choice(bs, tag))
        }),
    decreases n,
{
    let key = keys[n - 1];
    assert(keys.take(n).drop_last() == keys.take(n - 1));
    assert(keys.take(n).last() == key);
    let prev = replay(trie, c, keys.take(n - 1));
    let c0 = prev.0;
    if n == 1 {
        assert(keys.take(0) == Seq::<KeyPress>::empty());
        assert(c0 == c);
        assert(c.buffer + keys.take(0) == c.buffer);
    } else {
        lemma_aggregate_prefix(trie, c, keys, bs, tag, acts, n - 1);
    }
    assert(trie.lookup(c0.buffer, key) == Some(Mapping::Choice(bs, tag)));
    assert(acts.take(n) == acts.take(n - 1).push(acts[n - 1]));
    assert(c.buffer + keys.take(n) == (c.buffer + keys.take(n - 1)).push(key));
    assert forall|k: KeyPress| first_with_press(bs.0@, k) is Some implies
        trie.lookup(c0.buffer.push(key), k) == Some(Mapping::Choice(bs, tag)) by {
        lemma_choice_stays_open(trie, c0.buffer, key, k);
    }
}

/// Compiling later sequences never corrupts earlier ones: whatever a key
/// selects after a prefix in the trie of the first `k` sequences, it still
/// selects in the trie compiled from all of them.
pub proof fn lemma_later_sequences_keep_earlier<A, T>(t: MappingTrie<A, T>, k: int, buf: Seq<KeyPress>, key: KeyPress)
    requires
        0 <= k <= t.sequences().len(),
        t.shape() == compiled(t.sequences(), t.sequences().len() as int),
        resolve(t.sequences(), compiled(t.sequences(), k), buf, key) is Some,
    ensures
        t.lookup(buf, key) == Some(mapping_at(t.sequences(), resolve(t.sequences(), compiled(t.sequences(), k), buf, key).unwrap())),
{
    let seqs = t.sequences();
    lemma_compiled_extends(seqs, 0, k);
    lemma_compiled_extends(seqs, k, seqs.len() as int);
    lemma_resolve_stable(seqs, compiled(seqs, k), compiled(seqs, seqs.len() as int), buf, key);
}

} // verus!
