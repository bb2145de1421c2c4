use vstd::prelude::*;

verus! {

/// The value of four bytes, the first being the lowest-order one.
pub open spec fn le32(b0: u8, b1: u8, b2: u8, b3: u8) -> int {
    b0 as int + 0x100 * (b1 as int) + 0x1_0000 * (b2 as int) + 0x100_0000 * (b3 as int)
}

/// The 32-bit value that the four bytes of `code` from index `at` on encode,
/// little-endian.
pub open spec fn u32_at(code: Seq<u8>, at: int) -> int {
    le32(code[at], code[at + 1], code[at + 2], code[at + 3])
}

/// The four bytes of a 32-bit value, highest-order byte first.
pub open spec fn be4(v: int) -> Seq<u8> {
    seq![
        (v / 0x100_0000 % 0x100) as u8,
        (v / 0x1_0000 % 0x100) as u8,
        (v / 0x100 % 0x100) as u8,
        (v % 0x100) as u8,
    ]
}

/// The value of the last four bytes of `x`, highest-order byte first.
pub open spec fn be_tail(x: Seq<u8>) -> int {
    let n = x.len() as int;
    0x100_0000 * (x[n - 4] as int) + 0x1_0000 * (x[n - 3] as int) + 0x100 * (x[n - 2] as int)
        + x[n - 1] as int
}

/// `256^k`.
pub open spec fn pow256(k: nat) -> nat
    decreases k,
{
    if k == 0 {
        1
    } else {
        256 * pow256((k - 1) as nat)
    }
}

/// The value of a byte string whose first byte is the lowest-order one.
pub open spec fn le_value(bytes: Seq<u8>) -> nat
    decreases bytes.len(),
{
    if bytes.len() == 0 {
        0
    } else {
        bytes[0] as nat + 256 * le_value(bytes.skip(1))
    }
}

/// The `n` low-order bytes of `v`, highest-order byte first.
pub open spec fn be_bytes(v: int, n: nat) -> Seq<u8> {
    Seq::new(n, |i: int| (v / (pow256((n - 1 - i) as nat) as int) % 256) as u8)
}

/// The powers of 256 up to `256^16`.
pub proof fn lemma_pow256_values()
    ensures
        pow256(0) == 1,
        pow256(1) == 0x100,
        pow256(2) == 0x1_0000,
        pow256(3) == 0x100_0000,
        pow256(4) == 0x1_0000_0000,
        pow256(5) == 0x100_0000_0000,
        pow256(6) == 0x1_0000_0000_0000,
        pow256(7) == 0x100_0000_0000_0000,
        pow256(8) == 0x1_0000_0000_0000_0000,
        pow256(9) == 0x100_0000_0000_0000_0000,
        pow256(10) == 0x1_0000_0000_0000_0000_0000,
        pow256(11) == 0x100_0000_0000_0000_0000_0000,
        pow256(12) == 0x1_0000_0000_0000_0000_0000_0000,
        pow256(13) == 0x100_0000_0000_0000_0000_0000_0000,
        pow256(14) == 0x1_0000_0000_0000_0000_0000_0000_0000,
        pow256(15) == 0x100_0000_0000_0000_0000_0000_0000_0000,
        pow256(16) == 0x1_0000_0000_0000_0000_0000_0000_0000_0000,
{
    reveal_with_fuel(pow256, 18);
}

/// `256^k` grows with `k`.
pub proof fn lemma_pow256_monotonic(j: nat, k: nat)
    requires
        j <= k,
    ensures
        0 < pow256(j) <= pow256(k),
    decreases k,
{
    if j < k {
        lemma_pow256_monotonic(j, (k - 1) as nat);
    } else if k > 0 {
        lemma_pow256_monotonic((j - 1) as nat, (k - 1) as nat);
    }
}

/// A byte string of `n` bytes has a value below `256^n`.
pub proof fn lemma_le_value_bound(bytes: Seq<u8>)
    ensures
        le_value(bytes) < pow256(bytes.len()),
    decreases bytes.len(),
{
    if bytes.len() > 0 {
        lemma_le_value_bound(bytes.skip(1));
    }
}

/// Reading four bytes highest-order first undoes writing them that way.
pub proof fn lemma_be4_round_trip(v: int)
    requires
        0 <= v <= u32::MAX,
    ensures
        be4(v).len() == 4,
        be_tail(be4(v)) == v,
{
}

/// The four bytes of `v`, highest-order byte first.
pub fn be_bytes_u32(v: u32) -> (r: Vec<u8>)
    ensures
        r@ == be4(v as int),
{
    let mut r: Vec<u8> = Vec::new();
    r.push((v / 0x100_0000 % 0x100) as u8);
    r.push((v / 0x1_0000 % 0x100) as u8);
    r.push((v / 0x100 % 0x100) as u8);
    r.push((v % 0x100) as u8);
    assert(r@ =~= be4(v as int));
    r
}

/// The value of the last four bytes of `x`, highest-order byte first.
pub fn be_tail_u32(x: &Vec<u8>) -> (r: u32)
    requires
        x@.len() >= 4,
    ensures
        r == be_tail(x@),
{
    let n: usize = x.len();
    0x100_0000 * (x[n - 4] as u32) + 0x1_0000 * (x[n - 3] as u32) + 0x100 * (x[n - 2] as u32) + (
    x[n - 1] as u32)
}

} // verus!
