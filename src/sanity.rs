//! The pre-flight policy that guards a device against an accidental test.

use vstd::prelude::*;

verus! {

/// Why a device may not be tested.
#[derive(Debug, Clone, Copy, PartialEq, Eq)]
pub enum SanityFailure {
    /// The path names a partition, not a whole disk.
    NotWholeDisk,
    /// The medium is not a rotational disk.
    NotRotational,
    /// The disk still has partitions.
    HasChildPartitions,
}

/// A check that failed but was overridden.
#[derive(Debug, Clone, Copy, PartialEq, Eq)]
pub enum SanityWarning {
    TestingPartition,
    UnexpectedMediaType,
}

/// What the device facts look like to the checks.
#[derive(Debug, Clone, Copy, PartialEq, Eq)]
pub struct DeviceFacts {
    pub is_partition: bool,
    pub is_rotational: bool,
    pub has_child_partitions: bool,
}

/// Which checks the operator overrode.
#[derive(Debug, Clone, Copy, PartialEq, Eq)]
pub struct Overrides {
    pub allow_any_block_device: bool,
    pub allow_any_media: bool,
}

/// The outcome of the checks: the first one that fails and is not overridden,
/// in the order partition, medium, child partitions; else the warnings for
/// the overridden ones. Child partitions cannot be overridden.
pub open spec fn sanity_outcome(f: DeviceFacts, o: Overrides) -> Result<
    Seq<SanityWarning>,
    SanityFailure,
> {
    if f.is_partition && !o.allow_any_block_device {
        Err(SanityFailure::NotWholeDisk)
    } else if !f.is_rotational && !o.allow_any_media {
        Err(SanityFailure::NotRotational)
    } else if f.has_child_partitions {
        Err(SanityFailure::HasChildPartitions)
    } else {
        let w1: Seq<SanityWarning> = if f.is_partition {
            seq![SanityWarning::TestingPartition]
        } else {
            Seq::empty()
        };
        let w2: Seq<SanityWarning> = if !f.is_rotational {
            seq![SanityWarning::UnexpectedMediaType]
        } else {
            Seq::empty()
        };
        Ok(w1 + w2)
    }
}

/// Decide whether a device may be tested.
pub fn sanity_checks(facts: DeviceFacts, overrides: Overrides) -> (r: Result<
    Vec<SanityWarning>,
    SanityFailure,
>)
    ensures
        match (r, sanity_outcome(facts, overrides)) {
            (Ok(w), Ok(s)) => w@ == s,
            (Err(e), Err(s)) => e == s,
            _ => false,
        },
{
    if facts.is_partition && !overrides.allow_any_block_device {
        return Err(SanityFailure::NotWholeDisk);
    }
    if !facts.is_rotational && !overrides.allow_any_media {
        return Err(SanityFailure::NotRotational);
    }
    if facts.has_child_partitions {
        return Err(SanityFailure::HasChildPartitions);
    }
    let mut warnings: Vec<SanityWarning> = Vec::new();
    if facts.is_partition {
        warnings.push(SanityWarning::TestingPartition);
    }
    if !facts.is_rotational {
        warnings.push(SanityWarning::UnexpectedMediaType);
    }
    proof {
        let s = sanity_outcome(facts, overrides);
        assert(s matches Ok(ws) && warnings@ =~= ws);
    }
    Ok(warnings)
}

} // verus!
