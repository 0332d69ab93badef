//! The write phase: drain a generator into a device, block by block, until the
//! device signals that it is full.

use vstd::prelude::*;
use crate::garbage::GarbageGenerator;
use crate::read_phase::{lemma_div_between, upcoming};

verus! {

/// The OS error code for "no space left on device".
pub const ENOSPC: i32 = 28;

/// How a block write to a device failed.
#[derive(Debug, Clone, Copy, PartialEq, Eq)]
pub struct WriteFailure {
    /// The OS error code, where the failure carries one.
    pub raw_os_error: Option<i32>,
    /// Whether the device accepted no more bytes (a short or zero-length write).
    pub write_zero: bool,
}

/// Whether a write failure means the device is full: an out-of-space error
/// code, or a write that was cut short.
pub open spec fn is_device_full(f: WriteFailure) -> bool {
    f.raw_os_error == Some(ENOSPC) || f.write_zero
}

/// The failure a full device reports.
pub open spec fn no_space() -> WriteFailure {
    WriteFailure { raw_os_error: Some(ENOSPC), write_zero: false }
}

impl WriteFailure {
    /// Whether this failure signals the end of the device; any other failure is fatal.
    pub fn signals_device_full(&self) -> (r: bool)
        ensures
            r == is_device_full(*self),
    {
        match self.raw_os_error {
            Some(code) => code == ENOSPC || self.write_zero,
            None => self.write_zero,
        }
    }
}

/// What the write phase does after a block write.
#[derive(Debug, Clone, Copy, PartialEq, Eq)]
pub enum WriteStep {
    /// The block was written: write the next one.
    Continue,
    /// The device is full: the phase ends successfully with this many bytes written.
    Finished(u64),
    /// The write failed otherwise: the phase aborts at this offset.
    Fatal { offset: u64, failure: WriteFailure },
}

/// Progress of a write phase: the bytes written so far in whole blocks.
pub struct WriteProgress {
    block_size: usize,
    written: u64,
}

impl WriteProgress {
    pub closed spec fn block_len(&self) -> nat {
        self.block_size as nat
    }

    pub closed spec fn written_len(&self) -> nat {
        self.written as nat
    }

    pub fn new(block_size: usize) -> (r: Self)
        ensures
            r.block_len() == block_size,
            r.written_len() == 0,
    {
        WriteProgress { block_size, written: 0 }
    }

    pub fn written(&self) -> (r: u64)
        ensures
            r as nat == self.written_len(),
    {
        self.written
    }

    pub fn block_size(&self) -> (r: usize)
        ensures
            r as nat == self.block_len(),
    {
        self.block_size
    }

    /// Record how the write of the next block ended and decide what follows.
    pub fn record(&mut self, result: Result<(), WriteFailure>) -> (r: WriteStep)
        requires
            result is Ok ==> old(self).written_len() + old(self).block_len() <= u64::MAX,
        ensures
            final(self).block_len() == old(self).block_len(),
            match result {
                Ok(_) => r == WriteStep::Continue && final(self).written_len()
                    == old(self).written_len() + old(self).block_len(),
                Err(f) => final(self).written_len() == old(self).written_len() && if is_device_full(
                    f,
                ) {
                    r == WriteStep::Finished(old(self).written_len() as u64)
                } else {
                    r == (WriteStep::Fatal { offset: old(self).written_len() as u64, failure: f })
                },
            },
    {
        match result {
            Ok(()) => {
                self.written = self.written + self.block_size as u64;
                WriteStep::Continue
            },
            Err(f) => {
                if f.signals_device_full() {
                    WriteStep::Finished(self.written)
                } else {
                    WriteStep::Fatal { offset: self.written, failure: f }
                }
            },
        }
    }
}

/// A device held in memory, of fixed capacity, that signals "no space" once full.
pub struct MemoryDevice {
    data: Vec<u8>,
    capacity: usize,
}

impl MemoryDevice {
    pub closed spec fn wf(&self) -> bool {
        self.data@.len() <= self.capacity
    }

    pub closed spec fn contents_spec(&self) -> Seq<u8> {
        self.data@
    }

    pub closed spec fn capacity_spec(&self) -> nat {
        self.capacity as nat
    }

    /// An empty device that holds `capacity` bytes.
    pub fn new(capacity: usize) -> (r: Self)
        ensures
            r.wf(),
            r.contents_spec() == Seq::<u8>::empty(),
            r.capacity_spec() == capacity,
    {
        MemoryDevice { data: Vec::new(), capacity }
    }

    /// What the device holds.
    pub fn contents(&self) -> (r: &[u8])
        ensures
            r@ == self.contents_spec(),
    {
        self.data.as_slice()
    }

    pub fn capacity(&self) -> (r: usize)
        ensures
            r as nat == self.capacity_spec(),
    {
        self.capacity
    }

    /// Append `block`; where it does not fit, the part that fits is written and
    /// the device reports that it is out of space.
    pub fn write_block(&mut self, block: &[u8]) -> (r: Result<(), WriteFailure>)
        requires
            old(self).wf(),
        ensures
            final(self).wf(),
            final(self).capacity_spec() == old(self).capacity_spec(),
            old(self).contents_spec().len() + block@.len() <= old(self).capacity_spec() ==> r
                is Ok && final(self).contents_spec() == old(self).contents_spec() + block@,
            old(self).contents_spec().len() + block@.len() > old(self).capacity_spec() ==> r
                == Err::<(), WriteFailure>(no_space()) && final(self).contents_spec()
                == old(self).contents_spec() + block@.subrange(
                0,
                old(self).capacity_spec() - old(self).contents_spec().len(),
            ),
    {
        let room: usize = self.capacity - self.data.len();
        let fits = block.len() <= room;
        let take: usize = if fits {
            block.len()
        } else {
            room
        };
        let ghost before = self.data@;
        let mut i: usize = 0;
        while i < take
            invariant
                i <= take,
                take <= block@.len(),
                before.len() + take <= self.capacity,
                self.capacity == old(self).capacity,
                self.data@ == before + block@.subrange(0, i as int),
            decreases take - i,
        {
            self.data.push(block[i]);
            assert(block@.subrange(0, i + 1) =~= block@.subrange(0, i as int).push(block@[i as int]));
            i = i + 1;
        }
        assert(block@.subrange(0, block@.len() as int) =~= block@);
        if fits {
            Ok(())
        } else {
            Err(WriteFailure { raw_os_error: Some(ENOSPC), write_zero: false })
        }
    }
}

/// Write phase on an in-memory device: write the generator's blocks until the
/// device signals that it is full. Returns the bytes written in whole blocks,
/// which is the device's capacity where that is a whole number of blocks; the
/// device then holds the generator's stream up to that extent.
pub fn write_garbage<G: GarbageGenerator>(device: &mut MemoryDevice, generator: &mut G) -> (r: u64)
    requires
        old(device).wf(),
        old(device).contents_spec().len() == 0,
        old(generator).wf(),
        old(generator).produced() + old(device).capacity_spec() + old(generator).block_len()
            <= u64::MAX,
    ensures
        r == (old(device).capacity_spec() / old(generator).block_len()) * old(
            generator,
        ).block_len(),
        old(device).capacity_spec() % old(generator).block_len() == 0 ==> r
            == old(device).capacity_spec(),
        final(device).wf(),
        final(device).capacity_spec() == old(device).capacity_spec(),
        final(device).contents_spec().len() == old(device).capacity_spec(),
        final(device).contents_spec().subrange(0, r as int) == upcoming(
            *old(generator),
            r as nat,
        ),
{
    proof {
        generator.lemma_wf();
    }
    let bs = generator.block_size();
    let ghost start = old(generator).produced();
    let ghost cap = old(device).capacity_spec();
    let mut progress = WriteProgress::new(bs);
    loop
        invariant
            bs > 0,
            bs == old(generator).block_len(),
            generator.wf(),
            generator.block_len() == bs,
            forall|p: nat| #[trigger] generator.byte_at(p) == old(generator).byte_at(p),
            start == old(generator).produced(),
            cap == old(device).capacity_spec(),
            start + cap + bs <= u64::MAX,
            device.wf(),
            device.capacity_spec() == cap,
            progress.block_len() == bs,
            progress.written_len() == device.contents_spec().len(),
            generator.produced() == start + progress.written_len(),
            progress.written_len() % (bs as nat) == 0,
            device.contents_spec() == upcoming(*old(generator), progress.written_len()),
        decreases cap - device.contents_spec().len(),
    {
        proof {
            vstd::arithmetic::div_mod::lemma_mod_multiples_basic(1, bs as int);
        }
        let ghost before = device.contents_spec();
        let block = generator.produce(bs);
        let result = device.write_block(block.as_slice());
        match progress.record(result) {
            WriteStep::Continue => {
                proof {
                    vstd::arithmetic::div_mod::lemma_mod_adds(
                        before.len() as int,
                        bs as int,
                        bs as int,
                    );
                    assert(device.contents_spec() =~= upcoming(
                        *old(generator),
                        progress.written_len(),
                    ));
                }
            },
            WriteStep::Finished(n) => {
                proof {
                    let k = before.len() / (bs as nat);
                    vstd::arithmetic::div_mod::lemma_fundamental_div_mod(
                        before.len() as int,
                        bs as int,
                    );
                    assert(k * bs == before.len()) by (nonlinear_arith)
                        requires
                            before.len() == bs * k + 0,
                    ;
                    lemma_div_between(cap as int, bs as int, k as int);
                    assert(device.contents_spec().subrange(0, n as int) =~= before);
                    if cap % (bs as nat) == 0 {
                        vstd::arithmetic::div_mod::lemma_fundamental_div_mod(
                            cap as int,
                            bs as int,
                        );
                        assert(k * bs == cap) by (nonlinear_arith)
                            requires
                                cap == bs * k + 0,
                        ;
                    }
                }
                return n;
            },
            WriteStep::Fatal { .. } => {
                proof {
                    assert(false);
                }
                return 0;
            },
        }
    }
}

} // verus!
