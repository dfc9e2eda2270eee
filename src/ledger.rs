use std::collections::HashMap;
use vstd::prelude::*;

verus! {

/// Stable identity of one input source, as its 128 raw bits.
pub type ParticipantId = u128;

/// Inputs of one frame, keyed by participant.
pub type FrameInputs<Input> = HashMap<ParticipantId, Input>;

/// The predicate that cloning a value of `T` yields an equal value.
pub open spec fn clone_is_exact<T: Clone>() -> bool {
    forall|a: T, b: T| #[trigger] call_ensures(T::clone, (&a,), b) ==> a == b
}

/// Copies every entry of `src` into `acc`, replacing what `acc` held
/// for the same participant.
pub fn absorb<Input: Clone>(acc: &mut FrameInputs<Input>, src: &FrameInputs<Input>)
    requires
        clone_is_exact::<Input>(),
    ensures
        final(acc)@ == old(acc)@.union_prefer_right(src@),
{
    broadcast use vstd::std_specs::hash::group_hash_axioms;
    let ghost base = acc@;
    for entry in it: src.iter()
        invariant
            clone_is_exact::<Input>(),
            forall|k: ParticipantId| #[trigger] acc@.contains_key(k) <==> (base.contains_key(k)
                || exists|j: int| 0 <= j < it.index() && *it.seq()[j].0 == k),
            forall|k: ParticipantId| #[trigger] acc@.contains_key(k) ==> acc@[k] == (
                if src@.contains_key(k) && exists|j: int| 0 <= j < it.index() && *it.seq()[j].0 == k {
                    src@[k]
                } else {
                    base[k]
                }),
    {
        let (id, input) = entry;
        acc.insert(*id, input.clone());
    }
    assert(acc@ =~= base.union_prefer_right(src@));
}

} // verus!

verus! {

/// The ledger as a map from frame to the inputs recorded for that frame.
pub open spec fn ledger_model<Input>(raw: Map<usize, FrameInputs<Input>>) -> Map<
    usize,
    Map<ParticipantId, Input>,
> {
    raw.map_values(|m: FrameInputs<Input>| m@)
}

/// The inputs recorded for frame `f`; none where the ledger has no entry.
pub open spec fn entries_at<Input>(ledger: Map<usize, Map<ParticipantId, Input>>, f: int) -> Map<
    ParticipantId,
    Input,
> {
    if 0 <= f <= usize::MAX && ledger.contains_key(f as usize) {
        ledger[f as usize]
    } else {
        Map::empty()
    }
}

/// The inputs in force at frame `hi` when frames `lo..=hi` are retained:
/// each participant's most recent submission at or before `hi`.
pub open spec fn resolved<Input>(ledger: Map<usize, Map<ParticipantId, Input>>, lo: int, hi: int) -> Map<
    ParticipantId,
    Input,
>
    decreases hi - lo + 1,
{
    if hi < lo {
        Map::empty()
    } else {
        resolved(ledger, lo, hi - 1).union_prefer_right(entries_at(ledger, hi))
    }
}

} // verus!

verus! {

/// A participant's entry at frame `a` stays in force through frame `f`
/// while no later frame up to `f` records another input for it.
pub proof fn lemma_latest_entry_holds<Input>(
    ledger: Map<usize, Map<ParticipantId, Input>>,
    lo: int,
    a: int,
    f: int,
    p: ParticipantId,
)
    requires
        lo <= a <= f,
        entries_at(ledger, a).contains_key(p),
        forall|g: int| a < g <= f ==> !(#[trigger] entries_at(ledger, g)).contains_key(p),
    ensures
        resolved(ledger, lo, f).contains_key(p),
        resolved(ledger, lo, f)[p] == entries_at(ledger, a)[p],
    decreases f - a,
{
    if f > a {
        lemma_latest_entry_holds(ledger, lo, a, f - 1, p);
        assert(!entries_at(ledger, f).contains_key(p));
    }
}

/// Replacing the entries of frame `t` by the inputs resolved there and
/// starting resolution at `t` changes no resolution from `t` on.
pub proof fn lemma_compaction_keeps_resolution<Input>(
    ledger: Map<usize, Map<ParticipantId, Input>>,
    lo: int,
    t: int,
    f: int,
)
    requires
        lo <= t <= f,
        0 <= t <= usize::MAX,
    ensures
        resolved(ledger.insert(t as usize, resolved(ledger, lo, t)), t, f) == resolved(ledger, lo, f),
    decreases f - t,
{
    let compacted = ledger.insert(t as usize, resolved(ledger, lo, t));
    if f == t {
        assert(resolved(compacted, t, t - 1) == Map::<ParticipantId, Input>::empty());
        assert(entries_at(compacted, t) == resolved(ledger, lo, t));
        assert(resolved(compacted, t, f) =~= resolved(ledger, lo, f));
    } else {
        lemma_compaction_keeps_resolution(ledger, lo, t, f - 1);
        assert(entries_at(compacted, f) == entries_at(ledger, f));
    }
}

} // verus!
