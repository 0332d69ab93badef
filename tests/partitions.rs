use disk_spinner::partitions::{child_partitions, is_partition_of};

fn strings(v: &[&str]) -> Vec<String> {
    v.iter().map(|s| s.to_string()).collect()
}

#[test]
fn detects_child_partitions_of_the_given_device() {
    let detected = child_partitions("sda", &strings(&["/dev/sdb1", "/dev/sda1"]));
    assert_eq!(detected, strings(&["/dev/sda1"]));
}

#[test]
fn detects_child_partitions_none() {
    let detected = child_partitions("sda", &strings(&["/dev/sdb1"]));
    assert_eq!(detected, strings(&[]));
}

#[test]
fn detects_child_partitions_with_more_than_26_devices() {
    let detected = child_partitions("sda", &strings(&["/dev/sda", "/dev/sdb", "/dev/sdai"]));
    assert_eq!(detected, strings(&[]));
}

#[test]
fn partition_numbers() {
    assert!(is_partition_of("nvme0n1p", "/dev/nvme0n1p12"));
    assert!(is_partition_of("sda", "sda+3"));
    assert!(!is_partition_of("sda", "/dev/sda-1"));
    assert!(!is_partition_of("sda", "/"));
    assert!(!is_partition_of("sda", "/dev/sda1/.."));
    let many = child_partitions("sdb", &strings(&["/dev/sdb2", "/dev/sdb10", "/dev/sdc1"]));
    assert_eq!(many, strings(&["/dev/sdb2", "/dev/sdb10"]));
}
