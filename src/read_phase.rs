//! Read-back verification: compare what a device holds against the garbage
//! stream regenerated from the same parameters, block by block.

use vstd::prelude::*;
use vstd::arithmetic::div_mod::lemma_fundamental_div_mod_converse;
use crate::garbage::{GarbageGenerator, Generator};

verus! {

/// Block `k` of `s`, for blocks of `bs` bytes.
pub open spec fn block_of(s: Seq<u8>, bs: nat, k: nat) -> Seq<u8> {
    s.subrange((k * bs) as int, (k * bs + bs) as int)
}

/// Byte offsets of the blocks among the first `n` on which `disk` and
/// `expected` differ, in increasing order.
pub open spec fn mismatched_offsets(disk: Seq<u8>, expected: Seq<u8>, bs: nat, n: nat) -> Seq<nat>
    decreases n,
{
    if n == 0 {
        Seq::empty()
    } else {
        let prev = mismatched_offsets(disk, expected, bs, (n - 1) as nat);
        if block_of(disk, bs, (n - 1) as nat) == block_of(expected, bs, (n - 1) as nat) {
            prev
        } else {
            prev.push(((n - 1) as nat * bs) as nat)
        }
    }
}

/// Number of blocks needed to cover `written` bytes.
pub open spec fn blocks_to_cover(written: nat, bs: nat) -> nat
    recommends
        bs > 0,
{
    ((written + bs - 1) / bs as int) as nat
}

/// Number of blocks the read-back compares when the device holds `disk_len`
/// bytes: it stops at the extent written or at the device's end, whichever
/// comes first.
pub open spec fn blocks_compared(written: nat, disk_len: nat, bs: nat) -> nat
    recommends
        bs > 0,
{
    let w = blocks_to_cover(written, bs);
    let d = disk_len / bs;
    if w <= d {
        w
    } else {
        d
    }
}

/// Whether a stream of `generated_len` bytes runs out before the read-back
/// ends: it is read one block ahead of the device.
pub open spec fn generator_runs_out(written: nat, disk_len: nat, generated_len: nat, bs: nat) -> bool
    recommends
        bs > 0,
{
    let w = blocks_to_cover(written, bs);
    let d = disk_len / bs;
    generated_len / bs < if w <= d + 1 {
        w
    } else {
        d + 1
    }
}

pub(crate) proof fn lemma_div_between(x: int, d: int, q: int)
    requires
        d > 0,
        q * d <= x < q * d + d,
    ensures
        x / d == q,
{
    lemma_fundamental_div_mod_converse(x, d, q, x - q * d);
}

/// State of a read-back: how far it got and which blocks disagreed.
pub struct ReadBack {
    block_size: usize,
    written: u64,
    offset: u64,
    mismatch_offsets: Vec<u64>,
}

/// The stream the read-back is compared against ended before the device did.
#[derive(Debug, Clone, Copy, PartialEq, Eq)]
pub struct GeneratorExhausted {
    /// Offset of the block for which no expected bytes were left.
    pub offset: u64,
}

impl ReadBack {
    pub closed spec fn wf(&self) -> bool {
        self.block_size > 0
    }

    pub closed spec fn block_len(&self) -> nat {
        self.block_size as nat
    }

    pub closed spec fn written_len(&self) -> nat {
        self.written as nat
    }

    /// Bytes compared so far.
    pub closed spec fn validated_len(&self) -> nat {
        self.offset as nat
    }

    /// Offsets of the blocks found to differ so far.
    pub closed spec fn offsets(&self) -> Seq<nat> {
        self.mismatch_offsets@.map_values(|o: u64| o as nat)
    }

    pub fn new(block_size: usize, written: u64) -> (r: Self)
        requires
            block_size > 0,
        ensures
            r.wf(),
            r.block_len() == block_size,
            r.written_len() == written,
            r.validated_len() == 0,
            r.offsets() == Seq::<nat>::empty(),
    {
        let r = ReadBack { block_size, written, offset: 0, mismatch_offsets: Vec::new() };
        assert(r.offsets() =~= Seq::<nat>::empty());
        r
    }

    /// Whether the extent written has not been covered yet.
    pub fn needs_block(&self) -> (r: bool)
        ensures
            r == (self.validated_len() < self.written_len()),
    {
        self.offset < self.written
    }

    /// Record the comparison of the next block.
    pub fn record(&mut self, same: bool)
        requires
            old(self).wf(),
            old(self).validated_len() < old(self).written_len(),
            old(self).validated_len() + old(self).block_len() <= u64::MAX,
        ensures
            final(self).wf(),
            final(self).block_len() == old(self).block_len(),
            final(self).written_len() == old(self).written_len(),
            final(self).validated_len() == old(self).validated_len() + old(self).block_len(),
            final(self).offsets() == if same {
                old(self).offsets()
            } else {
                old(self).offsets().push(old(self).validated_len())
            },
    {
        if !same {
            self.mismatch_offsets.push(self.offset);
        }
        assert(self.offsets() =~= if same {
            old(self).offsets()
        } else {
            old(self).offsets().push(old(self).validated_len())
        });
        self.offset = self.offset + self.block_size as u64;
    }

    /// Compare the block read from the device with the expected one and record it.
    pub fn record_block(&mut self, have: &[u8], should: &[u8])
        requires
            old(self).wf(),
            old(self).validated_len() < old(self).written_len(),
            old(self).validated_len() + old(self).block_len() <= u64::MAX,
            have@.len() == old(self).block_len(),
            should@.len() == old(self).block_len(),
        ensures
            final(self).wf(),
            final(self).block_len() == old(self).block_len(),
            final(self).written_len() == old(self).written_len(),
            final(self).validated_len() == old(self).validated_len() + old(self).block_len(),
            final(self).offsets() == if have@ == should@ {
                old(self).offsets()
            } else {
                old(self).offsets().push(old(self).validated_len())
            },
    {
        let equal = ranges_equal(have, 0, should, 0, self.block_size);
        assert(have@.subrange(0, have@.len() as int) =~= have@);
        assert(should@.subrange(0, should@.len() as int) =~= should@);
        self.record(equal);
    }

    pub fn block_size(&self) -> (r: usize)
        ensures
            r as nat == self.block_len(),
    {
        self.block_size
    }

    pub fn written(&self) -> (r: u64)
        ensures
            r as nat == self.written_len(),
    {
        self.written
    }

    /// Bytes compared; less than [`ReadBack::written`] when the device ended early.
    pub fn validated(&self) -> (r: u64)
        ensures
            r as nat == self.validated_len(),
    {
        self.offset
    }

    /// Number of blocks found to differ.
    pub fn mismatches(&self) -> (r: usize)
        ensures
            r == self.offsets().len(),
    {
        self.mismatch_offsets.len()
    }

    /// Offsets of the blocks found to differ, in increasing order.
    pub fn mismatch_offsets(&self) -> (r: Vec<u64>)
        ensures
            r@.map_values(|o: u64| o as nat) == self.offsets(),
    {
        self.mismatch_offsets.clone()
    }

    /// Whether fewer bytes were compared than were written.
    pub fn ended_early(&self) -> (r: bool)
        ensures
            r == (self.validated_len() < self.written_len()),
    {
        self.offset < self.written
    }

    /// `Ok` when no block differed, else `Err` with the number of blocks that did.
    pub fn verdict(&self) -> (r: Result<(), usize>)
        ensures
            r is Ok <==> self.offsets().len() == 0,
            r matches Err(n) ==> n == self.offsets().len(),
    {
        let n = self.mismatch_offsets.len();
        if n == 0 {
            Ok(())
        } else {
            Err(n)
        }
    }
}

/// Whether `a[a_start..a_start + len]` equals `b[b_start..b_start + len]`.
fn ranges_equal(a: &[u8], a_start: usize, b: &[u8], b_start: usize, len: usize) -> (r: bool)
    requires
        a_start + len <= a@.len(),
        b_start + len <= b@.len(),
    ensures
        r == (a@.subrange(a_start as int, a_start + len) == b@.subrange(
            b_start as int,
            b_start + len,
        )),
{
    let a_len = a.len();
    let b_len = b.len();
    let mut i: usize = 0;
    while i < len
        invariant
            i <= len,
            a_len == a@.len(),
            b_len == b@.len(),
            a_start + len <= a@.len(),
            b_start + len <= b@.len(),
            forall|j: int| 0 <= j < i ==> #[trigger] a@[a_start + j] == b@[b_start + j],
        decreases len - i,
    {
        if a[a_start + i] != b[b_start + i] {
            assert(a@.subrange(a_start as int, a_start + len)[i as int] != b@.subrange(
                b_start as int,
                b_start + len,
            )[i as int]);
            return false;
        }
        i = i + 1;
    }
    assert forall|k: int| 0 <= k < len implies #[trigger] a@.subrange(a_start as int, a_start + len)[k]
        == b@.subrange(b_start as int, b_start + len)[k] by {
        assert(a@[a_start + k] == b@[b_start + k]);
    }
    assert(a@.subrange(a_start as int, a_start + len) =~= b@.subrange(
        b_start as int,
        b_start + len,
    ));
    true
}

/// The next `len` bytes a generator will hand out.
pub open spec fn upcoming<G: GarbageGenerator>(g: G, len: nat) -> Seq<u8> {
    Seq::new(len, |i: int| g.byte_at((g.produced() + i) as nat))
}

proof fn lemma_le_div(k: int, d: int, x: int)
    requires
        d > 0,
        k >= 0,
        k * d <= x,
    ensures
        k <= x / d,
{
    vstd::arithmetic::div_mod::lemma_fundamental_div_mod(x, d);
    let q = x / d;
    assert(k <= q) by (nonlinear_arith)
        requires
            d > 0,
            k * d <= x,
            x == d * q + x % d,
            0 <= x % d < d,
    ;
}

/// The scan ended because the extent written was covered, `k` blocks in.
proof fn lemma_exit_covered(written: nat, disk_len: nat, bs: nat, k: nat)
    requires
        bs > 0,
        k * bs <= disk_len,
        written <= k * bs,
        k * bs < written + bs,
    ensures
        blocks_to_cover(written, bs) == k,
        k <= disk_len / bs,
        blocks_compared(written, disk_len, bs) == k,
{
    lemma_div_between(written + bs - 1, bs as int, k as int);
    lemma_le_div(k as int, bs as int, disk_len as int);
}

/// The extent written is not covered yet, `k` blocks in.
proof fn lemma_not_covered(written: nat, bs: nat, k: nat)
    requires
        bs > 0,
        k * bs < written,
    ensures
        k + 1 <= blocks_to_cover(written, bs),
{
    assert((k + 1) * bs <= written + bs - 1) by (nonlinear_arith)
        requires
            k * bs < written,
    ;
    lemma_le_div(k + 1 as int, bs as int, written + bs - 1);
}

/// The scan ended because fewer than a block was left on the device, `k` blocks in.
proof fn lemma_exit_short(written: nat, disk_len: nat, bs: nat, k: nat)
    requires
        bs > 0,
        k * bs <= disk_len,
        disk_len < k * bs + bs,
        k * bs < written,
    ensures
        disk_len / bs == k,
        blocks_compared(written, disk_len, bs) == k,
{
    lemma_div_between(disk_len as int, bs as int, k as int);
    lemma_not_covered(written, bs, k);
}

/// Compare the bytes read back from a device, `blockdev`, with the expected
/// bytes `generator`, in blocks of `buffer_size`, over the `written` bytes of
/// the write phase. Each expected block is taken before the device's; the scan
/// stops where the extent written is covered or the device holds less than a
/// block more. It fails only where the expected bytes run out first.
pub fn compare_persisted_bytes(
    blockdev: &[u8],
    generator: &[u8],
    buffer_size: usize,
    written: usize,
) -> (r: Result<ReadBack, GeneratorExhausted>)
    requires
        buffer_size > 0,
    ensures
        r.is_err() <==> generator_runs_out(
            written as nat,
            blockdev@.len(),
            generator@.len(),
            buffer_size as nat,
        ),
        r matches Ok(rb) ==> {
            let n = blocks_compared(written as nat, blockdev@.len(), buffer_size as nat);
            &&& rb.wf()
            &&& rb.block_len() == buffer_size
            &&& rb.written_len() == written
            &&& rb.validated_len() == n * buffer_size
            &&& rb.offsets() == mismatched_offsets(blockdev@, generator@, buffer_size as nat, n)
        },
{
    let bs = buffer_size;
    let disk_len = blockdev.len();
    let gen_len = generator.len();
    let mut state = ReadBack::new(bs, written as u64);
    let mut offset: usize = 0;
    let mut short: bool = false;
    let ghost mut k: nat = 0;
    while !short && state.needs_block()
        invariant
            bs > 0,
            bs == buffer_size,
            disk_len == blockdev@.len(),
            gen_len == generator@.len(),
            state.wf(),
            state.block_len() == bs,
            state.written_len() == written,
            state.validated_len() == offset,
            offset == k * bs,
            offset <= disk_len,
            offset <= gen_len,
            offset < written + bs,
            short ==> offset < written && disk_len - offset < bs && gen_len - offset >= bs,
            state.offsets() == mismatched_offsets(blockdev@, generator@, bs as nat, k),
        decreases disk_len - offset + if short { 0int } else { 1int },
    {
        if gen_len - offset < bs {
            proof {
                lemma_div_between(gen_len as int, bs as int, k as int);
                lemma_not_covered(written as nat, bs as nat, k);
                lemma_le_div(k as int, bs as int, disk_len as int);
            }
            return Err(GeneratorExhausted { offset: offset as u64 });
        }
        if disk_len - offset < bs {
            short = true;
        } else {
            let equal = ranges_equal(blockdev, offset, generator, offset, bs);
            state.record(equal);
            assert((k + 1) * bs == k * bs + bs) by (nonlinear_arith);
            offset = offset + bs;
            proof {
                k = (k + 1) as nat;
            }
        }
    }
    proof {
        if short {
            lemma_exit_short(written as nat, disk_len as nat, bs as nat, k);
            assert((k + 1) * bs <= gen_len) by (nonlinear_arith)
                requires
                    k * bs + bs <= gen_len,
            ;
            lemma_le_div(k + 1 as int, bs as int, gen_len as int);
        } else {
            lemma_exit_covered(written as nat, disk_len as nat, bs as nat, k);
            lemma_le_div(k as int, bs as int, gen_len as int);
        }
    }
    Ok(state)
}

/// Read-back of `written` bytes from the device contents `blockdev` against a
/// generator, in blocks of the generator's size: the scan stops where the
/// extent written is covered or the device holds less than a block more, and
/// every block compared is checked against the generator's next block.
pub fn read_back<G: GarbageGenerator>(blockdev: &[u8], generator: &mut G, written: u64) -> (r:
    ReadBack)
    requires
        old(generator).wf(),
        old(generator).produced() + blockdev@.len() <= u64::MAX,
    ensures
        ({
            let bs = old(generator).block_len();
            let n = blocks_compared(written as nat, blockdev@.len(), bs);
            &&& r.wf()
            &&& r.block_len() == bs
            &&& r.written_len() == written
            &&& r.validated_len() == n * bs
            &&& r.offsets() == mismatched_offsets(
                blockdev@,
                upcoming(*old(generator), blockdev@.len()),
                bs,
                n,
            )
            &&& final(generator).wf()
            &&& final(generator).produced() == old(generator).produced() + n * bs
        }),
{
    proof {
        generator.lemma_wf();
    }
    let bs = generator.block_size();
    let disk_len = blockdev.len();
    let ghost expected = upcoming(*old(generator), blockdev@.len());
    let ghost start = old(generator).produced();
    let mut state = ReadBack::new(bs, written);
    let mut offset: usize = 0;
    let mut short: bool = false;
    let ghost mut k: nat = 0;
    while !short && state.needs_block()
        invariant
            bs > 0,
            bs == old(generator).block_len(),
            disk_len == blockdev@.len(),
            start + disk_len <= u64::MAX,
            generator.wf(),
            generator.block_len() == bs,
            generator.produced() == start + offset,
            forall|p: nat| #[trigger] generator.byte_at(p) == old(generator).byte_at(p),
            expected == upcoming(*old(generator), blockdev@.len()),
            start == old(generator).produced(),
            state.wf(),
            state.block_len() == bs,
            state.written_len() == written,
            state.validated_len() == offset,
            offset == k * bs,
            offset <= disk_len,
            offset < written + bs,
            short ==> offset < written && disk_len - offset < bs,
            state.offsets() == mismatched_offsets(blockdev@, expected, bs as nat, k),
        decreases disk_len - offset + if short { 0int } else { 1int },
    {
        if disk_len - offset < bs {
            short = true;
        } else {
            proof {
                vstd::arithmetic::div_mod::lemma_mod_multiples_basic(1, bs as int);
            }
            let should = generator.produce(bs);
            let equal = ranges_equal(blockdev, offset, &should, 0, bs);
            assert(should@.subrange(0, bs as int) =~= expected.subrange(
                offset as int,
                offset + bs,
            ));
            state.record(equal);
            assert((k + 1) * bs == k * bs + bs) by (nonlinear_arith);
            offset = offset + bs;
            proof {
                k = (k + 1) as nat;
            }
        }
    }
    proof {
        if short {
            lemma_exit_short(written as nat, disk_len as nat, bs as nat, k);
        } else {
            lemma_exit_covered(written as nat, disk_len as nat, bs as nat, k);
        }
    }
    state
}

/// No block is reported among the first `n` where the two streams agree on
/// all of those blocks' bytes.
pub proof fn lemma_agreeing_prefix_no_mismatch(
    disk: Seq<u8>,
    expected: Seq<u8>,
    bs: nat,
    n: nat,
)
    requires
        n * bs <= disk.len(),
        n * bs <= expected.len(),
        disk.subrange(0, (n * bs) as int) == expected.subrange(0, (n * bs) as int),
    ensures
        mismatched_offsets(disk, expected, bs, n) == Seq::<nat>::empty(),
    decreases n,
{
    if n > 0 {
        let m = (n - 1) as nat;
        assert(m * bs + bs == n * bs) by (nonlinear_arith)
            requires
                m == n - 1,
        ;
        assert(m * bs <= n * bs) by (nonlinear_arith)
            requires
                m == n - 1,
        ;
        assert(disk.subrange(0, (m * bs) as int) =~= disk.subrange(0, (n * bs) as int).subrange(
            0,
            (m * bs) as int,
        ));
        assert(expected.subrange(0, (m * bs) as int) =~= expected.subrange(
            0,
            (n * bs) as int,
        ).subrange(0, (m * bs) as int));
        lemma_agreeing_prefix_no_mismatch(disk, expected, bs, m);
        assert(block_of(disk, bs, m) =~= disk.subrange(0, (n * bs) as int).subrange(
            (m * bs) as int,
            (n * bs) as int,
        ));
        assert(block_of(expected, bs, m) =~= expected.subrange(0, (n * bs) as int).subrange(
            (m * bs) as int,
            (n * bs) as int,
        ));
    }
}

/// Detection of a single corrupted byte: where the device differs from the
/// expected stream in exactly one byte, at `at`, inside the first `n` blocks,
/// exactly one block is reported, and it is the block that holds that byte.
pub proof fn lemma_single_corruption_detected(
    disk: Seq<u8>,
    expected: Seq<u8>,
    bs: nat,
    n: nat,
    at: nat,
)
    requires
        bs > 0,
        disk.len() == expected.len(),
        n * bs <= disk.len(),
        at < n * bs,
        disk[at as int] != expected[at as int],
        forall|j: int| 0 <= j < disk.len() && j != at ==> #[trigger] disk[j] == expected[j],
    ensures
        mismatched_offsets(disk, expected, bs, n) == seq![(at / bs) * bs],
    decreases n,
{
    assert(n > 0) by (nonlinear_arith)
        requires
            at < n * bs,
    ;
    let m = (n - 1) as nat;
    assert(m * bs + bs == n * bs) by (nonlinear_arith)
        requires
            m == n - 1,
    ;
    if at < m * bs {
        lemma_single_corruption_detected(disk, expected, bs, m, at);
        assert(block_of(disk, bs, m) =~= block_of(expected, bs, m));
    } else {
        assert(disk.subrange(0, (m * bs) as int) =~= expected.subrange(0, (m * bs) as int));
        lemma_agreeing_prefix_no_mismatch(disk, expected, bs, m);
        lemma_div_between(at as int, bs as int, m as int);
        assert(block_of(disk, bs, m)[at - m * bs] != block_of(expected, bs, m)[at - m * bs]);
        assert(mismatched_offsets(disk, expected, bs, n) =~= seq![(at / bs) * bs]);
    }
}

/// Round trip: where the device holds, over the extent written, exactly what
/// one generator handed out from its start, read-back with a fresh generator
/// of the same variant, block size and seed finds no mismatching block and
/// covers the whole extent.
pub proof fn lemma_round_trip(writer: Generator, reader: Generator, disk: Seq<u8>, written: nat)
    requires
        writer.wf(),
        reader.wf(),
        writer.variant() == reader.variant(),
        writer.block_len() == reader.block_len(),
        writer.seed() == reader.seed(),
        writer.produced() == 0,
        reader.produced() == 0,
        written % writer.block_len() == 0,
        written <= disk.len(),
        disk.subrange(0, written as int) == upcoming(writer, written),
    ensures
        blocks_compared(written, disk.len(), reader.block_len()) * reader.block_len() == written,
        mismatched_offsets(
            disk,
            upcoming(reader, disk.len()),
            reader.block_len(),
            blocks_compared(written, disk.len(), reader.block_len()),
        ) == Seq::<nat>::empty(),
{
    writer.lemma_wf();
    let bs = reader.block_len();
    let k = written / bs;
    vstd::arithmetic::div_mod::lemma_fundamental_div_mod(written as int, bs as int);
    assert(k * bs == written) by (nonlinear_arith)
        requires
            written == bs * k + 0,
    ;
    assert(k * bs < written + bs);
    lemma_exit_covered(written, disk.len(), bs, k);
    let expected = upcoming(reader, disk.len());
    assert(disk.subrange(0, written as int) =~= expected.subrange(0, written as int));
    lemma_agreeing_prefix_no_mismatch(disk, expected, bs, k);
}

} // verus!
