use vstd::prelude::*;
use vstd::string::StringSliceAdditionalSpecFns;

verus! {

/// Multiplication modulo 2^32.
pub open spec fn mul32(a: u32, b: u32) -> u32 {
    ((a as int * b as int) % 0x1_0000_0000) as u32
}

/// One mixing round of the hash: fold in byte `b`, then a multiply-xor-shift
/// cascade.
pub open spec fn mix_byte(h: u32, b: u8) -> u32 {
    let h1 = ((mul32(h, 31) as int + b as int) % 0x1_0000_0000) as u32;
    let h2 = h1 ^ (h1 >> 16u32);
    let h3 = mul32(h2, 0x85ebca6b);
    let h4 = h3 ^ (h3 >> 13u32);
    let h5 = mul32(h4, 0xc2b2ae35);
    h5 ^ (h5 >> 16u32)
}

/// The hash state after mixing in every byte of `bytes`, in order, from `h`.
pub open spec fn mix_bytes(h: u32, bytes: Seq<u8>) -> u32
    decreases bytes.len(),
{
    if bytes.len() == 0 {
        h
    } else {
        mix_byte(mix_bytes(h, bytes.drop_last()), bytes.last())
    }
}

/// The hash of `bytes` after `passes` passes over the whole sequence,
/// starting from 0.
pub open spec fn rolling_hash(bytes: Seq<u8>, passes: nat) -> u32
    decreases passes,
{
    if passes == 0 {
        0
    } else {
        mix_bytes(rolling_hash(bytes, (passes - 1) as nat), bytes)
    }
}

/// The 32-bit mixing hash of the UTF-8 bytes of `data`, repeated over the
/// whole byte sequence `iterations` times.
pub fn hash_computation(data: &str, iterations: u32) -> (r: u32)
    ensures
        r == rolling_hash(data.spec_bytes(), iterations as nat),
{
    let bytes = data.as_bytes();
    let mut hash: u32 = 0;
    let mut pass: u32 = 0;
    while pass < iterations
        invariant
            pass <= iterations,
            bytes@ == data.spec_bytes(),
            hash == rolling_hash(bytes@, pass as nat),
        decreases iterations - pass,
    {
        let ghost start = hash;
        let mut i: usize = 0;
        while i < bytes.len()
            invariant
                i <= bytes@.len(),
                hash == mix_bytes(start, bytes@.subrange(0, i as int)),
            decreases bytes@.len() - i,
        {
            let byte = bytes[i];
            hash = hash.wrapping_mul(31).wrapping_add(byte as u32);
            hash = hash ^ (hash >> 16u32);
            hash = hash.wrapping_mul(0x85ebca6b);
            hash = hash ^ (hash >> 13u32);
            hash = hash.wrapping_mul(0xc2b2ae35);
            hash = hash ^ (hash >> 16u32);
            assert(bytes@.subrange(0, i + 1).drop_last() =~= bytes@.subrange(0, i as int));
            i = i + 1;
        }
        assert(bytes@.subrange(0, bytes@.len() as int) =~= bytes@);
        pass = pass + 1;
    }
    hash
}

/// The hash is a function of its inputs: equal data and equal pass counts
/// give equal hashes.
pub proof fn lemma_hash_deterministic(d1: Seq<u8>, n1: nat, d2: Seq<u8>, n2: nat)
    requires
        d1 == d2,
        n1 == n2,
    ensures
        rolling_hash(d1, n1) == rolling_hash(d2, n2),
{
}

} // verus!
