//! What a lookup decides on one snapshot of the process tree.
use vstd::prelude::*;

use crate::fields::{field, nth_field};
use crate::pid::{decimal_u32, parse_decimal_u32, Pid};

verus! {

/// Field of a descriptor entry path that names the owning process:
/// the one right after the process-tree root, as in `/proc/<pid>/fd/<n>`.
pub const PID_FIELD: usize = 2;

/// One descriptor entry as observed: the path of the entry itself, and the
/// path its link resolved to, or `None` where resolving it failed.
pub struct DescriptorEntry {
    pub path: Vec<u8>,
    pub referent: Option<Vec<u8>>,
}

/// A descriptor entry as plain byte sequences.
pub type EntryView = (Seq<u8>, Option<Seq<u8>>);

impl View for DescriptorEntry {
    type V = EntryView;

    open spec fn view(&self) -> EntryView {
        (
            self.path@,
            match self.referent {
                Some(r) => Some(r@),
                None => None,
            },
        )
    }
}

/// A whole snapshot as plain byte sequences.
pub open spec fn snapshot_view(es: Seq<DescriptorEntry>) -> Seq<EntryView> {
    es.map_values(|e: DescriptorEntry| e@)
}

/// What one descriptor entry contributes to a lookup.
#[derive(Debug, Clone, Copy, PartialEq, Eq, Structural)]
pub enum EntryOutcome {
    /// The entry refers to the target and belongs to this process.
    Holder(Pid),
    /// The link of the entry could not be resolved.
    Unreadable,
    /// The entry refers to something other than the target.
    OtherTarget,
    /// The entry refers to the target, but its path names no process.
    BadPidSegment,
}

/// Why a lookup as a whole failed.
#[derive(Debug, Clone, Copy, PartialEq, Eq, Structural)]
pub enum ScanError {
    /// The target path could not be brought to canonical form.
    TargetUnresolvable,
    /// The pattern that enumerates the process tree could not be compiled.
    GlobPatternInvalid,
}

/// The outcome of entry `e` for the canonical target `target`.
pub open spec fn entry_outcome(target: Seq<u8>, e: EntryView) -> EntryOutcome {
    match e.1 {
        None => EntryOutcome::Unreadable,
        Some(r) => if r != target {
            EntryOutcome::OtherTarget
        } else {
            match field(e.0, PID_FIELD as nat) {
                Some(seg) => match decimal_u32(seg) {
                    Some(n) => EntryOutcome::Holder(Pid(n)),
                    None => EntryOutcome::BadPidSegment,
                },
                None => EntryOutcome::BadPidSegment,
            }
        },
    }
}

/// The holders found in a snapshot, in the order of its entries.
pub open spec fn holders(target: Seq<u8>, es: Seq<EntryView>) -> Seq<Pid>
    decreases es.len(),
{
    if es.len() == 0 {
        Seq::empty()
    } else {
        let rest = holders(target, es.drop_last());
        match entry_outcome(target, es.last()) {
            EntryOutcome::Holder(p) => rest.push(p),
            _ => rest,
        }
    }
}

/// The result of a lookup, given the canonical form of the target (`None`
/// where canonicalization failed) and the snapshot of the process tree.
pub open spec fn lookup_result(target: Option<Seq<u8>>, es: Seq<EntryView>) -> Result<
    Seq<Pid>,
    ScanError,
> {
    match target {
        Some(t) => Ok(holders(t, es)),
        None => Err(ScanError::TargetUnresolvable),
    }
}

fn same_bytes(a: &[u8], b: &[u8]) -> (r: bool)
    ensures
        r == (a@ == b@),
{
    if a.len() != b.len() {
        return false;
    }
    let mut i: usize = 0;
    while i < a.len()
        invariant
            a.len() == b.len(),
            i <= a.len(),
            a@.take(i as int) == b@.take(i as int),
        decreases a.len() - i,
    {
        if a[i] != b[i] {
            return false;
        }
        assert(a@.take(i + 1) =~= a@.take(i as int).push(a[i as int]));
        assert(b@.take(i + 1) =~= b@.take(i as int).push(b[i as int]));
        i = i + 1;
    }
    assert(a@.take(a.len() as int) =~= a@);
    assert(b@.take(b.len() as int) =~= b@);
    true
}

/// Decides what a descriptor entry contributes to a lookup of `target`.
pub fn classify_entry(target: &[u8], entry: &DescriptorEntry) -> (r: EntryOutcome)
    ensures
        r == entry_outcome(target@, entry@),
{
    match &entry.referent {
        None => EntryOutcome::Unreadable,
        Some(resolved) => {
            if !same_bytes(resolved.as_slice(), target) {
                return EntryOutcome::OtherTarget;
            }
            match nth_field(entry.path.as_slice(), PID_FIELD) {
                Some(seg) => match parse_decimal_u32(seg.as_slice()) {
                    Some(n) => EntryOutcome::Holder(Pid(n)),
                    None => EntryOutcome::BadPidSegment,
                },
                None => EntryOutcome::BadPidSegment,
            }
        },
    }
}

/// The processes whose entries in the snapshot refer to `target`, in the
/// order of the entries; every other entry is skipped.
pub fn collect_holders(target: &[u8], entries: &[DescriptorEntry]) -> (r: Vec<Pid>)
    ensures
        r@ == holders(target@, snapshot_view(entries@)),
{
    let ghost es = snapshot_view(entries@);
    let mut out: Vec<Pid> = Vec::new();
    let mut i: usize = 0;
    while i < entries.len()
        invariant
            i <= entries.len(),
            es == snapshot_view(entries@),
            out@ == holders(target@, es.take(i as int)),
        decreases entries.len() - i,
    {
        let outcome = classify_entry(target, &entries[i]);
        assert(es.take(i + 1).drop_last() =~= es.take(i as int));
        assert(es.take(i + 1).last() == entries@[i as int]@);
        match outcome {
            EntryOutcome::Holder(p) => out.push(p),
            _ => {},
        }
        i = i + 1;
    }
    assert(es.take(entries.len() as int) =~= es);
    out
}

/// Completes a lookup from the canonical form of the target (`None` where
/// canonicalization failed) and the snapshot of the process tree.
pub fn lookup_snapshot(target: Option<&[u8]>, entries: &[DescriptorEntry]) -> (r: Result<
    Vec<Pid>,
    ScanError,
>)
    ensures
        target is None ==> r == Err::<Vec<Pid>, ScanError>(ScanError::TargetUnresolvable),
        target matches Some(t) ==> (r matches Ok(v) && v@ == holders(t@, snapshot_view(entries@))),
{
    match target {
        None => Err(ScanError::TargetUnresolvable),
        Some(t) => Ok(collect_holders(t, entries)),
    }
}

} // verus!
