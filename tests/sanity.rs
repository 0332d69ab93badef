use disk_spinner::sanity::{sanity_checks, DeviceFacts, Overrides, SanityFailure, SanityWarning};

fn facts(is_partition: bool, is_rotational: bool, has_child_partitions: bool) -> DeviceFacts {
    DeviceFacts { is_partition, is_rotational, has_child_partitions }
}

fn overrides(allow_any_block_device: bool, allow_any_media: bool) -> Overrides {
    Overrides { allow_any_block_device, allow_any_media }
}

#[test]
fn whole_rotational_disk_passes() {
    assert_eq!(sanity_checks(facts(false, true, false), overrides(false, false)), Ok(vec![]));
}

#[test]
fn partition_is_refused_unless_allowed() {
    assert_eq!(
        sanity_checks(facts(true, true, false), overrides(false, true)),
        Err(SanityFailure::NotWholeDisk)
    );
    assert_eq!(
        sanity_checks(facts(true, true, false), overrides(true, false)),
        Ok(vec![SanityWarning::TestingPartition])
    );
}

#[test]
fn solid_state_is_refused_unless_allowed() {
    assert_eq!(
        sanity_checks(facts(false, false, false), overrides(true, false)),
        Err(SanityFailure::NotRotational)
    );
    assert_eq!(
        sanity_checks(facts(true, false, false), overrides(true, true)),
        Ok(vec![SanityWarning::TestingPartition, SanityWarning::UnexpectedMediaType])
    );
}

#[test]
fn child_partitions_are_always_refused() {
    assert_eq!(
        sanity_checks(facts(false, true, true), overrides(true, true)),
        Err(SanityFailure::HasChildPartitions)
    );
    assert_eq!(
        sanity_checks(facts(true, false, true), overrides(false, false)),
        Err(SanityFailure::NotWholeDisk)
    );
}
