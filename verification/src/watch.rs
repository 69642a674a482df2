use vstd::prelude::*;

verus! {

/// How the change detector classifies one filesystem event.
#[derive(Debug, Clone, Copy, PartialEq, Eq, Structural)]
pub enum EventClass {
    /// A pure access: nothing was written.
    Access,
    /// A removal.
    Remove,
    /// A modification that touched file content.
    DataModify,
    /// A modification of metadata only, such as permissions or timestamps.
    OtherModify,
    /// Any other kind of event.
    Other,
}

/// The detector's filter: accesses, removals and metadata-only
/// modifications are noise; data modifications and every other kind of
/// event call for a recomputation.
pub open spec fn triggers_recompute(k: EventClass) -> bool {
    match k {
        EventClass::Access => false,
        EventClass::Remove => false,
        EventClass::DataModify => true,
        EventClass::OtherModify => false,
        EventClass::Other => true,
    }
}

/// Decide whether one filesystem event calls for a recomputation pass.
pub fn should_trigger(kind: EventClass) -> (r: bool)
    ensures
        r == triggers_recompute(kind),
{
    match kind {
        EventClass::DataModify => true,
        EventClass::Other => true,
        _ => false,
    }
}

} // verus!
