use disk_spinner::garbage::{GarbageGenerator, GarbageGeneratorVariant};
use disk_spinner::write_phase::{
    write_garbage, MemoryDevice, WriteFailure, WriteProgress, WriteStep, ENOSPC,
};

#[test]
fn disk_full_after_k_bytes_reports_k() {
    let k = 37 * 4096;
    let mut device = MemoryDevice::new(k);
    let mut generator = GarbageGeneratorVariant::Aes.to_generator(4096, 3);
    let written = write_garbage(&mut device, &mut generator);
    assert_eq!(written, k as u64);
    assert_eq!(device.contents().len(), k);
}

#[test]
fn unaligned_capacity_counts_whole_blocks_only() {
    let mut device = MemoryDevice::new(10 * 512 + 100);
    let mut generator = GarbageGeneratorVariant::Blake3.to_generator(512, 3);
    let written = write_garbage(&mut device, &mut generator);
    assert_eq!(written, 10 * 512);
    assert_eq!(device.contents().len(), 10 * 512 + 100);
    let mut fresh = GarbageGeneratorVariant::Blake3.to_generator(512, 3);
    let expected = fresh.produce(11 * 512);
    assert_eq!(device.contents(), &expected[..10 * 512 + 100]);
}

#[test]
fn empty_device_writes_nothing() {
    let mut device = MemoryDevice::new(0);
    let mut generator = GarbageGeneratorVariant::Aes.to_generator(512, 3);
    assert_eq!(write_garbage(&mut device, &mut generator), 0);
}

#[test]
fn device_full_signals_end_the_phase() {
    let mut p = WriteProgress::new(512);
    assert_eq!(p.record(Ok(())), WriteStep::Continue);
    assert_eq!(p.record(Ok(())), WriteStep::Continue);
    let enospc = WriteFailure { raw_os_error: Some(ENOSPC), write_zero: false };
    assert_eq!(p.record(Err(enospc)), WriteStep::Finished(1024));
    let mut q = WriteProgress::new(512);
    assert_eq!(q.record(Ok(())), WriteStep::Continue);
    let zero = WriteFailure { raw_os_error: None, write_zero: true };
    assert_eq!(q.record(Err(zero)), WriteStep::Finished(512));
    assert_eq!(q.written(), 512);
}

#[test]
fn other_write_failures_are_fatal() {
    let mut p = WriteProgress::new(4096);
    assert_eq!(p.record(Ok(())), WriteStep::Continue);
    let eio = WriteFailure { raw_os_error: Some(5), write_zero: false };
    assert!(!eio.signals_device_full());
    assert_eq!(p.record(Err(eio)), WriteStep::Fatal { offset: 4096, failure: eio });
    assert!(WriteFailure { raw_os_error: Some(28), write_zero: false }.signals_device_full());
    assert!(!WriteFailure { raw_os_error: None, write_zero: false }.signals_device_full());
}

#[test]
fn memory_device_reports_no_space_when_full() {
    let mut device = MemoryDevice::new(6);
    assert_eq!(device.write_block(&[1, 2, 3, 4]), Ok(()));
    let r = device.write_block(&[5, 6, 7, 8]);
    assert_eq!(r, Err(WriteFailure { raw_os_error: Some(ENOSPC), write_zero: false }));
    assert_eq!(device.contents(), &[1, 2, 3, 4, 5, 6]);
    assert_eq!(device.capacity(), 6);
}
