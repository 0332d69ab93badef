//! Deterministic garbage generators: a byte stream fixed by
//! (variant, block size, seed).

use vstd::prelude::*;
use vstd::arithmetic::div_mod::{lemma_fundamental_div_mod, lemma_fundamental_div_mod_converse};
use crate::encoding::{encode_le, le_bytes};
use crate::primitives::{
    aes128_block, aes128_encrypt, blake3_keyed_xof, chacha8_stream, keyed_xof, seeded_bytes,
};

verus! {

/// The method used to generate the deterministic garbage stream.
#[derive(Debug, Clone, Copy, PartialEq, Eq)]
pub enum GarbageGeneratorVariant {
    /// AES-128 in counter mode, 128-bit little-endian counter starting at zero.
    Aes,
    /// BLAKE3 keyed hash in extendable-output mode, one evaluation per block.
    Blake3,
}

/// Byte `pos` of the AES counter-mode stream under `key`: the plaintext is all
/// zero, so the stream is the encryption of the counters 0, 1, 2, ...
pub open spec fn aes_stream_byte(key: Seq<u8>, pos: nat) -> u8 {
    aes128_encrypt(key, le_bytes(pos / 16, 16))[(pos % 16) as int]
}

/// Byte `pos` of the BLAKE3 stream under `key`: block `i` is the keyed
/// extendable output over the 8-byte little-endian encoding of `i`.
pub open spec fn blake3_stream_byte(key: Seq<u8>, block_size: nat, pos: nat) -> u8
    recommends
        block_size > 0,
{
    blake3_keyed_xof(key, le_bytes(pos / block_size, 8), block_size)[(pos % block_size) as int]
}

/// Byte `pos` of the garbage stream of `variant` for `block_size` and `seed`.
pub open spec fn garbage_byte(
    variant: GarbageGeneratorVariant,
    block_size: nat,
    seed: u64,
    pos: nat,
) -> u8 {
    match variant {
        GarbageGeneratorVariant::Aes => aes_stream_byte(chacha8_stream(seed, 16), pos),
        GarbageGeneratorVariant::Blake3 => blake3_stream_byte(
            chacha8_stream(seed, 32),
            block_size,
            pos,
        ),
    }
}

/// The `len` bytes of the garbage stream that start at `start`.
pub open spec fn garbage_segment(
    variant: GarbageGeneratorVariant,
    block_size: nat,
    seed: u64,
    start: nat,
    len: nat,
) -> Seq<u8> {
    Seq::new(len, |i: int| garbage_byte(variant, block_size, seed, (start + i) as nat))
}

/// A source of deterministic garbage, handed out in whole blocks.
pub trait GarbageGenerator {
    spec fn wf(&self) -> bool;

    /// The block size the generator was made for.
    spec fn block_len(&self) -> nat;

    /// The seed the stream is derived from.
    spec fn seed(&self) -> u64;

    /// How many bytes have been handed out so far.
    spec fn produced(&self) -> nat;

    /// Byte `pos` of the whole stream, whether handed out yet or not.
    spec fn byte_at(&self, pos: nat) -> u8;

    proof fn lemma_wf(&self)
        requires
            self.wf(),
        ensures
            self.block_len() > 0,
    ;

    fn block_size(&self) -> (r: usize)
        requires
            self.wf(),
        ensures
            r as nat == self.block_len(),
    ;

    fn position(&self) -> (r: u64)
        requires
            self.wf(),
        ensures
            r as nat == self.produced(),
    ;

    /// The next `n_bytes` bytes of the stream; `n_bytes` is a whole number of blocks.
    fn produce(&mut self, n_bytes: usize) -> (r: Vec<u8>)
        requires
            old(self).wf(),
            n_bytes as nat % old(self).block_len() == 0,
            old(self).produced() + n_bytes <= u64::MAX,
        ensures
            final(self).wf(),
            final(self).block_len() == old(self).block_len(),
            final(self).seed() == old(self).seed(),
            final(self).produced() == old(self).produced() + n_bytes,
            forall|p: nat| #[trigger] final(self).byte_at(p) == old(self).byte_at(p),
            r@ == Seq::new(
                n_bytes as nat,
                |i: int| old(self).byte_at((old(self).produced() + i) as nat),
            ),
    ;
}

/// AES-128 counter-mode generator; the key is drawn from a ChaCha8 stream
/// seeded with the seed.
pub struct AesGenerator {
    block_size: usize,
    seed: u64,
    key: Vec<u8>,
    position: u64,
}

impl AesGenerator {
    pub fn new(block_size: usize, seed: u64) -> (r: Self)
        requires
            block_size > 0,
        ensures
            r.wf(),
            r.block_len() == block_size,
            r.seed() == seed,
            r.produced() == 0,
            forall|p: nat|
                #[trigger] r.byte_at(p) == garbage_byte(
                    GarbageGeneratorVariant::Aes,
                    block_size as nat,
                    seed,
                    p,
                ),
    {
        let key = seeded_bytes(seed, 16);
        AesGenerator { block_size, seed, key, position: 0 }
    }
}

impl GarbageGenerator for AesGenerator {
    closed spec fn wf(&self) -> bool {
        &&& self.block_size > 0
        &&& self.key@ == chacha8_stream(self.seed, 16)
        &&& self.key@.len() == 16
    }

    closed spec fn block_len(&self) -> nat {
        self.block_size as nat
    }

    closed spec fn seed(&self) -> u64 {
        self.seed
    }

    closed spec fn produced(&self) -> nat {
        self.position as nat
    }

    closed spec fn byte_at(&self, pos: nat) -> u8 {
        garbage_byte(GarbageGeneratorVariant::Aes, self.block_size as nat, self.seed, pos)
    }

    proof fn lemma_wf(&self) {
    }

    fn block_size(&self) -> (r: usize) {
        self.block_size
    }

    fn position(&self) -> (r: u64) {
        self.position
    }

    fn produce(&mut self, n_bytes: usize) -> (r: Vec<u8>) {
        let ghost start = self.position as nat;
        let mut out: Vec<u8> = Vec::new();
        while out.len() < n_bytes
            invariant
                self.wf(),
                self.block_size == old(self).block_size,
                self.seed == old(self).seed,
                start == old(self).position,
                start + n_bytes <= u64::MAX,
                out@.len() <= n_bytes,
                self.position == start + out@.len(),
                forall|i: int|
                    0 <= i < out@.len() ==> out@[i] == aes_stream_byte(
                        self.key@,
                        (start + i) as nat,
                    ),
            decreases n_bytes - out@.len(),
        {
            let counter: u64 = self.position / 16;
            let offset: usize = (self.position % 16) as usize;
            let block = encode_le(counter as u128, 16);
            let stream = aes128_block(&self.key, &block);
            let ghost len0 = out@.len();
            let mut j: usize = offset;
            while j < 16 && out.len() < n_bytes
                invariant
                    self.wf(),
                    self.block_size == old(self).block_size,
                    self.seed == old(self).seed,
                    start + n_bytes <= u64::MAX,
                    offset <= j <= 16,
                    out@.len() <= n_bytes,
                    out@.len() - len0 == j - offset,
                    self.position == start + out@.len(),
                    self.position == counter * 16 + j,
                    stream@ == aes128_encrypt(self.key@, le_bytes(counter as nat, 16)),
                    stream@.len() == 16,
                    forall|i: int|
                        0 <= i < out@.len() ==> out@[i] == aes_stream_byte(
                            self.key@,
                            (start + i) as nat,
                        ),
                decreases 16 - j,
            {
                proof {
                    lemma_fundamental_div_mod_converse(
                        self.position as int,
                        16,
                        counter as int,
                        j as int,
                    );
                }
                out.push(stream[j]);
                j = j + 1;
                self.position = self.position + 1;
            }
        }
        proof {
            assert forall|i: int| 0 <= i < n_bytes implies out@[i] == old(self).byte_at(
                (old(self).produced() + i) as nat,
            ) by {}
            assert(out@ =~= Seq::new(
                n_bytes as nat,
                |i: int| old(self).byte_at((old(self).produced() + i) as nat),
            ));
        }
        out
    }
}

/// BLAKE3 generator: a 256-bit key drawn from a ChaCha8 stream seeded with the
/// seed keys the hash; block `i` is the extendable output over `i` as 8
/// little-endian bytes, so no block depends on another.
pub struct Blake3Generator {
    block_size: usize,
    seed: u64,
    key: Vec<u8>,
    lba: u64,
}

impl Blake3Generator {
    pub fn new(block_size: usize, seed: u64) -> (r: Self)
        requires
            block_size > 0,
        ensures
            r.wf(),
            r.block_len() == block_size,
            r.seed() == seed,
            r.produced() == 0,
            forall|p: nat|
                #[trigger] r.byte_at(p) == garbage_byte(
                    GarbageGeneratorVariant::Blake3,
                    block_size as nat,
                    seed,
                    p,
                ),
    {
        let key = seeded_bytes(seed, 32);
        Blake3Generator { block_size, seed, key, lba: 0 }
    }
}

impl GarbageGenerator for Blake3Generator {
    closed spec fn wf(&self) -> bool {
        &&& self.block_size > 0
        &&& self.key@ == chacha8_stream(self.seed, 32)
        &&& self.key@.len() == 32
        &&& self.lba * self.block_size <= u64::MAX
    }

    closed spec fn block_len(&self) -> nat {
        self.block_size as nat
    }

    closed spec fn seed(&self) -> u64 {
        self.seed
    }

    closed spec fn produced(&self) -> nat {
        (self.lba * self.block_size) as nat
    }

    closed spec fn byte_at(&self, pos: nat) -> u8 {
        garbage_byte(GarbageGeneratorVariant::Blake3, self.block_size as nat, self.seed, pos)
    }

    proof fn lemma_wf(&self) {
    }

    fn block_size(&self) -> (r: usize) {
        self.block_size
    }

    fn position(&self) -> (r: u64) {
        self.lba * (self.block_size as u64)
    }

    fn produce(&mut self, n_bytes: usize) -> (r: Vec<u8>) {
        let bs = self.block_size;
        let ghost lba0 = self.lba as int;
        let ghost start = (self.lba * bs) as int;
        let n_blocks: usize = n_bytes / bs;
        proof {
            lemma_fundamental_div_mod(n_bytes as int, bs as int);
            assert(n_blocks * bs == bs * n_blocks) by (nonlinear_arith);
        }
        let mut out: Vec<u8> = Vec::new();
        let mut k: usize = 0;
        while k < n_blocks
            invariant
                self.wf(),
                self.block_size == bs,
                self.seed == old(self).seed,
                bs > 0,
                n_blocks * bs == n_bytes,
                start == lba0 * bs,
                start + n_bytes <= u64::MAX,
                k <= n_blocks,
                self.lba == lba0 + k,
                out@.len() == k * bs,
                forall|i: int|
                    0 <= i < out@.len() ==> out@[i] == blake3_stream_byte(
                        self.key@,
                        bs as nat,
                        (start + i) as nat,
                    ),
            decreases n_blocks - k,
        {
            proof {
                assert((k + 1) * bs <= n_blocks * bs) by (nonlinear_arith)
                    requires
                        k + 1 <= n_blocks,
                        bs > 0,
                ;
                assert((lba0 + k + 1) * bs == start + (k + 1) * bs) by (nonlinear_arith)
                    requires
                        start == lba0 * bs,
                ;
            }
            let index = encode_le(self.lba as u128, 8);
            let mut block = keyed_xof(&self.key, &index, bs);
            let ghost prev = out@;
            out.append(&mut block);
            proof {
                assert forall|i: int| 0 <= i < out@.len() implies out@[i] == blake3_stream_byte(
                    self.key@,
                    bs as nat,
                    (start + i) as nat,
                ) by {
                    if i >= prev.len() {
                        assert(start + i == (lba0 + k) * bs + (i - k * bs)) by (nonlinear_arith)
                            requires
                                start == lba0 * bs,
                        ;
                        lemma_fundamental_div_mod_converse(
                            start + i,
                            bs as int,
                            lba0 + k,
                            i - k * bs,
                        );
                    }
                }
                assert((k + 1) * bs == k * bs + bs) by (nonlinear_arith);
                assert(lba0 + k + 1 <= (lba0 + k + 1) * bs) by (nonlinear_arith)
                    requires
                        bs > 0,
                        lba0 + k + 1 >= 0,
                ;
            }
            self.lba = self.lba + 1;
            k = k + 1;
        }
        proof {
            assert(self.lba * bs == start + n_bytes) by (nonlinear_arith)
                requires
                    self.lba == lba0 + n_blocks,
                    start == lba0 * bs,
                    n_blocks * bs == n_bytes,
            ;
            assert(out@ =~= Seq::new(
                n_bytes as nat,
                |i: int| old(self).byte_at((old(self).produced() + i) as nat),
            ));
        }
        out
    }
}

/// A generator of one of the variants, as made by
/// [`GarbageGeneratorVariant::to_generator`].
pub enum Generator {
    Aes(AesGenerator),
    Blake3(Blake3Generator),
}

impl Generator {
    pub open spec fn variant(&self) -> GarbageGeneratorVariant {
        match self {
            Generator::Aes(_) => GarbageGeneratorVariant::Aes,
            Generator::Blake3(_) => GarbageGeneratorVariant::Blake3,
        }
    }

}

impl GarbageGenerator for Generator {
    open spec fn wf(&self) -> bool {
        match self {
            Generator::Aes(g) => g.wf() && forall|p: nat| #[trigger]
                g.byte_at(p) == garbage_byte(
                    GarbageGeneratorVariant::Aes,
                    g.block_len(),
                    g.seed(),
                    p,
                ),
            Generator::Blake3(g) => g.wf() && forall|p: nat| #[trigger]
                g.byte_at(p) == garbage_byte(
                    GarbageGeneratorVariant::Blake3,
                    g.block_len(),
                    g.seed(),
                    p,
                ),
        }
    }

    open spec fn block_len(&self) -> nat {
        match self {
            Generator::Aes(g) => g.block_len(),
            Generator::Blake3(g) => g.block_len(),
        }
    }

    open spec fn seed(&self) -> u64 {
        match self {
            Generator::Aes(g) => g.seed(),
            Generator::Blake3(g) => g.seed(),
        }
    }

    open spec fn produced(&self) -> nat {
        match self {
            Generator::Aes(g) => g.produced(),
            Generator::Blake3(g) => g.produced(),
        }
    }

    open spec fn byte_at(&self, pos: nat) -> u8 {
        garbage_byte(self.variant(), self.block_len(), self.seed(), pos)
    }

    proof fn lemma_wf(&self) {
        match self {
            Generator::Aes(g) => g.lemma_wf(),
            Generator::Blake3(g) => g.lemma_wf(),
        }
    }

    fn block_size(&self) -> (r: usize) {
        match self {
            Generator::Aes(g) => g.block_size(),
            Generator::Blake3(g) => g.block_size(),
        }
    }

    fn position(&self) -> (r: u64) {
        match self {
            Generator::Aes(g) => g.position(),
            Generator::Blake3(g) => g.position(),
        }
    }

    fn produce(&mut self, n_bytes: usize) -> (r: Vec<u8>) {
        match self {
            Generator::Aes(g) => g.produce(n_bytes),
            Generator::Blake3(g) => g.produce(n_bytes),
        }
    }
}

/// `s` in lower case, as `str::to_lowercase` gives it.
pub uninterp spec fn lowercase_of(s: Seq<char>) -> Seq<char>;

/// Relies on `str::to_lowercase`: the lower-case form depends on the characters alone.
#[verifier::external_body]
fn to_lowercase(s: &str) -> (r: String)
    ensures
        r@ == lowercase_of(s@),
{
    s.to_lowercase()
}

/// The display name of a variant.
pub open spec fn variant_label(v: GarbageGeneratorVariant) -> Seq<char> {
    match v {
        GarbageGeneratorVariant::Aes => "AES"@,
        GarbageGeneratorVariant::Blake3 => "BLAKE3"@,
    }
}

/// The variant a lower-case name selects.
pub open spec fn variant_of_lowercase(name: Seq<char>) -> Option<GarbageGeneratorVariant> {
    if name == "aes"@ {
        Some(GarbageGeneratorVariant::Aes)
    } else if name == "blake3"@ {
        Some(GarbageGeneratorVariant::Blake3)
    } else {
        None
    }
}

/// A variant name that no variant has.
#[derive(Debug, Clone, PartialEq, Eq)]
pub struct UnknownVariant {
    pub name: String,
}

impl GarbageGeneratorVariant {
    /// The display name: `AES` or `BLAKE3`.
    pub fn label(&self) -> (r: String)
        ensures
            r@ == variant_label(*self),
    {
        match self {
            GarbageGeneratorVariant::Aes => "AES".to_string(),
            GarbageGeneratorVariant::Blake3 => "BLAKE3".to_string(),
        }
    }

    /// The variant an already lower-cased name selects: `aes` or `blake3`.
    pub fn from_lowercase(name: &str) -> (r: Option<Self>)
        ensures
            r == variant_of_lowercase(name@),
    {
        let name = name.to_string();
        let aes = "aes".to_string();
        let blake3 = "blake3".to_string();
        proof {
            reveal_strlit("aes");
            reveal_strlit("blake3");
        }
        if name == aes {
            Some(GarbageGeneratorVariant::Aes)
        } else if name == blake3 {
            Some(GarbageGeneratorVariant::Blake3)
        } else {
            None
        }
    }

    /// The variant named by `s`, in any case.
    pub fn from_name(s: &str) -> (r: Option<Self>)
        ensures
            r == variant_of_lowercase(lowercase_of(s@)),
    {
        let lower = to_lowercase(s);
        Self::from_lowercase(lower.as_str())
    }

    /// A new generator of this variant; one is needed for each write phase and
    /// each read-back phase of each device.
    pub fn to_generator(self, block_size: usize, seed: u64) -> (r: Generator)
        requires
            block_size > 0,
        ensures
            r.wf(),
            r.variant() == self,
            r.block_len() == block_size,
            r.seed() == seed,
            r.produced() == 0,
    {
        match self {
            GarbageGeneratorVariant::Aes => Generator::Aes(AesGenerator::new(block_size, seed)),
            GarbageGeneratorVariant::Blake3 => Generator::Blake3(
                Blake3Generator::new(block_size, seed),
            ),
        }
    }
}

/// Determinism: two generators of the same variant, block size and seed agree
/// on every byte of their stream, so from equal positions equal reads hand out
/// equal bytes, and each such read (which keeps both generators' parameters and
/// advances both by its length) leaves them at equal positions again. Each
/// `to_generator` call with the same arguments starts at position zero.
pub proof fn lemma_determinism(a: Generator, b: Generator, n_bytes: nat)
    requires
        a.wf(),
        b.wf(),
        a.variant() == b.variant(),
        a.block_len() == b.block_len(),
        a.seed() == b.seed(),
        a.produced() == b.produced(),
    ensures
        forall|p: nat| #[trigger] a.byte_at(p) == b.byte_at(p),
        forall|start: nat, len: nat|
            #![trigger garbage_segment(a.variant(), a.block_len(), a.seed(), start, len)]
            Seq::new(len, |i: int| a.byte_at((start + i) as nat)) == Seq::new(
                len,
                |i: int| b.byte_at((start + i) as nat),
            ) && Seq::new(len, |i: int| a.byte_at((start + i) as nat)) == garbage_segment(
                a.variant(),
                a.block_len(),
                a.seed(),
                start,
                len,
            ),
        Seq::new(n_bytes, |i: int| a.byte_at((a.produced() + i) as nat)) == Seq::new(
            n_bytes,
            |i: int| b.byte_at((b.produced() + i) as nat),
        ),
        Seq::new(n_bytes, |i: int| a.byte_at((a.produced() + i) as nat)) == garbage_segment(
            a.variant(),
            a.block_len(),
            a.seed(),
            a.produced(),
            n_bytes,
        ),
{
    assert forall|start: nat, len: nat|
        #![trigger garbage_segment(a.variant(), a.block_len(), a.seed(), start, len)]
        Seq::new(len, |i: int| a.byte_at((start + i) as nat)) == Seq::new(
            len,
            |i: int| b.byte_at((start + i) as nat),
        ) && Seq::new(len, |i: int| a.byte_at((start + i) as nat)) == garbage_segment(
            a.variant(),
            a.block_len(),
            a.seed(),
            start,
            len,
        ) by {
        assert(Seq::new(len, |i: int| a.byte_at((start + i) as nat)) =~= Seq::new(
            len,
            |i: int| b.byte_at((start + i) as nat),
        ));
        assert(Seq::new(len, |i: int| a.byte_at((start + i) as nat)) =~= garbage_segment(
            a.variant(),
            a.block_len(),
            a.seed(),
            start,
            len,
        ));
    }
    assert(Seq::new(n_bytes, |i: int| a.byte_at((a.produced() + i) as nat)) =~= Seq::new(
        n_bytes,
        |i: int| b.byte_at((b.produced() + i) as nat),
    ));
    assert(Seq::new(n_bytes, |i: int| a.byte_at((a.produced() + i) as nat)) =~= garbage_segment(
        a.variant(),
        a.block_len(),
        a.seed(),
        a.produced(),
        n_bytes,
    ));
}

impl std::str::FromStr for GarbageGeneratorVariant {
    type Err = UnknownVariant;

    fn from_str(s: &str) -> Result<Self, Self::Err> {
        match Self::from_name(s) {
            Some(v) => Ok(v),
            None => Err(UnknownVariant { name: s.to_string() }),
        }
    }
}

} // verus!
