//! Laws that relate lookups to the snapshot they were made on.
use vstd::prelude::*;

use crate::fields::field;
use crate::pid::{decimal_u32, Pid};
use crate::scan::{
    entry_outcome, holders, lookup_result, EntryOutcome, EntryView, ScanError, PID_FIELD,
};

verus! {

/// A process is among the holders exactly when some entry of the snapshot
/// refers to the target and belongs to that process: nothing else enters
/// the result, and no such entry is left out.
pub proof fn lemma_holder_iff_entry(target: Seq<u8>, es: Seq<EntryView>, p: Pid)
    ensures
        holders(target, es).contains(p) <==> exists|i: int|
            0 <= i < es.len() && entry_outcome(target, #[trigger] es[i])
                == EntryOutcome::Holder(p),
    decreases es.len(),
{
    if es.len() > 0 {
        let init = es.drop_last();
        lemma_holder_iff_entry(target, init, p);
        let rest = holders(target, init);
        if holders(target, es).contains(p) {
            if rest.contains(p) {
                let i = choose|i: int|
                    0 <= i < init.len() && entry_outcome(target, #[trigger] init[i])
                        == EntryOutcome::Holder(p);
                assert(es[i] == init[i]);
            } else {
                let j = holders(target, es).index_of(p);
                assert(holders(target, es)[j] == p);
                assert(es[es.len() - 1] == es.last());
            }
        }
        if exists|i: int|
            0 <= i < es.len() && entry_outcome(target, #[trigger] es[i])
                == EntryOutcome::Holder(p) {
            let i = choose|i: int|
                0 <= i < es.len() && entry_outcome(target, #[trigger] es[i])
                    == EntryOutcome::Holder(p);
            if i < es.len() - 1 {
                assert(init[i] == es[i]);
                let k = rest.index_of(p);
                assert(holders(target, es)[k] == p);
            } else {
                assert(holders(target, es) == rest.push(p));
                assert(holders(target, es)[rest.len() as int] == p);
            }
        }
    }
}

/// An entry whose link resolves to the target and whose path names process
/// `n` puts that process among the holders: a process that holds the
/// target open finds itself, and finds any other holder.
pub proof fn lemma_holder_detected(target: Seq<u8>, es: Seq<EntryView>, i: int, seg: Seq<u8>, n: u32)
    requires
        0 <= i < es.len(),
        es[i].1 == Some(target),
        field(es[i].0, PID_FIELD as nat) == Some(seg),
        decimal_u32(seg) == Some(n),
    ensures
        holders(target, es).contains(Pid(n)),
{
    lemma_holder_iff_entry(target, es, Pid(n));
}

/// A snapshot where no entry resolves to the target yields no holders:
/// a target that nobody holds open gives an empty result, not an error.
pub proof fn lemma_no_referent_no_holder(target: Seq<u8>, es: Seq<EntryView>)
    requires
        forall|i: int| 0 <= i < es.len() ==> (#[trigger] es[i]).1 != Some(target),
    ensures
        holders(target, es) =~= Seq::<Pid>::empty(),
        lookup_result(Some(target), es) == Ok::<Seq<Pid>, ScanError>(Seq::<Pid>::empty()),
{
    if holders(target, es).len() > 0 {
        let p = holders(target, es)[0];
        assert(holders(target, es).contains(p));
        lemma_holder_iff_entry(target, es, p);
    }
    assert(holders(target, es) =~= Seq::<Pid>::empty());
}

/// A lookup depends on the path it was given only through its canonical
/// form: two paths with the same canonical form (a relative path and the
/// absolute one it stands for) give the same result on the same snapshot.
pub proof fn lemma_canonical_form_decides(
    canonical_a: Seq<u8>,
    canonical_b: Seq<u8>,
    es: Seq<EntryView>,
)
    requires
        canonical_a == canonical_b,
    ensures
        lookup_result(Some(canonical_a), es) == lookup_result(Some(canonical_b), es),
{
}

/// Two snapshots that hold the same entries, in any order, give the same
/// set of holders: repeating a lookup while nobody opens or closes the
/// target gives an equal result set.
pub proof fn lemma_same_entries_same_holders(
    target: Seq<u8>,
    es_a: Seq<EntryView>,
    es_b: Seq<EntryView>,
)
    requires
        es_a.to_set() == es_b.to_set(),
    ensures
        holders(target, es_a).to_set() == holders(target, es_b).to_set(),
{
    assert forall|p: Pid| holders(target, es_a).to_set().contains(p)
        == holders(target, es_b).to_set().contains(p) by {
        lemma_holder_iff_entry(target, es_a, p);
        lemma_holder_iff_entry(target, es_b, p);
        if exists|i: int|
            0 <= i < es_a.len() && entry_outcome(target, #[trigger] es_a[i])
                == EntryOutcome::Holder(p) {
            let i = choose|i: int|
                0 <= i < es_a.len() && entry_outcome(target, #[trigger] es_a[i])
                    == EntryOutcome::Holder(p);
            assert(es_a.to_set().contains(es_a[i]));
            assert(es_b.contains(es_a[i]));
            let j = es_b.index_of(es_a[i]);
            assert(es_b[j] == es_a[i]);
        }
        if exists|i: int|
            0 <= i < es_b.len() && entry_outcome(target, #[trigger] es_b[i])
                == EntryOutcome::Holder(p) {
            let i = choose|i: int|
                0 <= i < es_b.len() && entry_outcome(target, #[trigger] es_b[i])
                    == EntryOutcome::Holder(p);
            assert(es_b.to_set().contains(es_b[i]));
            assert(es_a.contains(es_b[i]));
            let j = es_a.index_of(es_b[i]);
            assert(es_a[j] == es_b[i]);
        }
    }
    assert(holders(target, es_a).to_set() =~= holders(target, es_b).to_set());
}

} // verus!
