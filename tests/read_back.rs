use disk_spinner::garbage::{GarbageGenerator, GarbageGeneratorVariant};
use disk_spinner::read_phase::{compare_persisted_bytes, read_back, GeneratorExhausted};
use disk_spinner::write_phase::{write_garbage, MemoryDevice};

#[test]
fn detects_issues() {
    let input: Vec<u8> = vec![1; 1024 * 1024];
    let mut read_back: Vec<u8> = vec![1; 1024 * 1024];
    read_back[1024 * 512] = 255; // corrupt our read-back data

    let mismatched = compare_persisted_bytes(&read_back, &input, 1024, 1024 * 1024).unwrap();
    assert_eq!(mismatched.mismatches(), 1);
}

#[test]
fn succeeds() {
    let input: Vec<u8> = vec![1; 1024 * 1024];
    let read_back: Vec<u8> = vec![1; 1024 * 1024];
    let mismatched = compare_persisted_bytes(&read_back, &input, 1024, 1024 * 1024).unwrap();
    assert_eq!(mismatched.mismatches(), 0);
}

#[test]
fn corruption_reports_the_offset_of_its_block() {
    let input: Vec<u8> = vec![7; 1024 * 1024];
    let mut disk = input.clone();
    disk[1024 * 512 + 100] ^= 0x40;
    let report = compare_persisted_bytes(&disk, &input, 1024, 1024 * 1024).unwrap();
    assert_eq!(report.mismatches(), 1);
    assert_eq!(report.mismatch_offsets(), vec![512 * 1024]);
    assert_eq!(report.verdict(), Err(1));
    assert_eq!(report.validated(), 1024 * 1024);
    assert!(!report.ended_early());
}

#[test]
fn generator_shorter_than_device_is_an_error() {
    let input: Vec<u8> = vec![0; 3 * 512];
    let disk: Vec<u8> = vec![0; 8 * 512];
    let r = compare_persisted_bytes(&disk, &input, 512, 8 * 512);
    assert_eq!(r.err(), Some(GeneratorExhausted { offset: 3 * 512 }));
}

#[test]
fn unaligned_extent_reads_a_last_whole_block() {
    let input: Vec<u8> = vec![3; 4096];
    let disk: Vec<u8> = vec![3; 4096];
    let report = compare_persisted_bytes(&disk, &input, 1024, 2500).unwrap();
    assert_eq!(report.validated(), 3072);
    assert_eq!(report.written(), 2500);
    assert_eq!(report.verdict(), Ok(()));
}

#[test]
fn round_trip_through_memory_device_has_no_mismatch() {
    for variant in [GarbageGeneratorVariant::Aes, GarbageGeneratorVariant::Blake3] {
        let mut device = MemoryDevice::new(1024 * 1024);
        let mut writer = variant.to_generator(1024, 42);
        let written = write_garbage(&mut device, &mut writer);
        assert_eq!(written, 1024 * 1024);
        let mut reader = variant.to_generator(1024, 42);
        let report = read_back(device.contents(), &mut reader, written);
        assert_eq!(report.mismatches(), 0);
        assert_eq!(report.validated(), 1024 * 1024);
        assert_eq!(reader.position(), 1024 * 1024);
    }
}

#[test]
fn single_corrupted_byte_in_block_512_is_one_mismatch() {
    let mut device = MemoryDevice::new(1024 * 1024);
    let mut writer = GarbageGeneratorVariant::Blake3.to_generator(1024, 9);
    let written = write_garbage(&mut device, &mut writer);
    let mut disk = device.contents().to_vec();
    disk[512 * 1024 + 17] ^= 0xff;
    let mut reader = GarbageGeneratorVariant::Blake3.to_generator(1024, 9);
    let report = read_back(&disk, &mut reader, written);
    assert_eq!(report.mismatches(), 1);
    assert_eq!(report.mismatch_offsets(), vec![512 * 1024]);
}

#[test]
fn different_seed_mismatches_every_block() {
    let mut device = MemoryDevice::new(64 * 1024);
    let mut writer = GarbageGeneratorVariant::Aes.to_generator(1024, 1);
    let written = write_garbage(&mut device, &mut writer);
    let mut reader = GarbageGeneratorVariant::Aes.to_generator(1024, 2);
    let report = read_back(device.contents(), &mut reader, written);
    assert_eq!(report.mismatches(), 64);
    assert_eq!(report.verdict(), Err(64));
}

#[test]
fn partial_read_back_stops_and_keeps_earlier_mismatches() {
    let mut device = MemoryDevice::new(1024 * 1024);
    let mut writer = GarbageGeneratorVariant::Aes.to_generator(1024, 5);
    let written = write_garbage(&mut device, &mut writer);
    let mut disk = device.contents().to_vec();
    disk.truncate(700 * 1024 + 300);
    disk[10 * 1024] ^= 1;
    disk[20 * 1024 + 5] ^= 1;
    let mut reader = GarbageGeneratorVariant::Aes.to_generator(1024, 5);
    let report = read_back(&disk, &mut reader, written);
    assert_eq!(report.validated(), 700 * 1024);
    assert_eq!(report.written(), 1024 * 1024);
    assert!(report.ended_early());
    assert_eq!(report.mismatch_offsets(), vec![10 * 1024, 20 * 1024]);
    assert_eq!(report.verdict(), Err(2));
}

#[test]
fn partial_slice_read_back_reports_validated_bytes() {
    let input: Vec<u8> = vec![5; 16 * 256];
    let mut disk: Vec<u8> = vec![5; 10 * 256 + 10];
    disk[3 * 256] = 0;
    let report = compare_persisted_bytes(&disk, &input, 256, 16 * 256).unwrap();
    assert_eq!(report.validated(), 10 * 256);
    assert!(report.ended_early());
    assert_eq!(report.mismatch_offsets(), vec![3 * 256]);
}
