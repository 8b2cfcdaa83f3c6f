//! Big-endian integers in byte sequences.

use vstd::prelude::*;

verus! {

/// The low `n` bytes of `x`, most significant first.
pub open spec fn be(x: nat, n: nat) -> Seq<u8>
    decreases n,
{
    if n == 0 {
        Seq::empty()
    } else {
        be(x / 256, (n - 1) as nat).push((x % 256) as u8)
    }
}

/// The number whose big-endian bytes are `bytes`.
pub open spec fn be_value(bytes: Seq<u8>) -> nat
    decreases bytes.len(),
{
    if bytes.len() == 0 {
        0
    } else {
        be_value(bytes.drop_last()) * 256 + bytes.last() as nat
    }
}

/// How many numbers `n` bytes can hold.
pub open spec fn be_bound(n: nat) -> nat
    decreases n,
{
    if n == 0 {
        1
    } else {
        be_bound((n - 1) as nat) * 256
    }
}

/// `be(x, n)` has `n` bytes, and stands for `x` where `x` fits.
pub proof fn lemma_be(x: nat, n: nat)
    ensures
        be(x, n).len() == n,
        x < be_bound(n) ==> be_value(be(x, n)) == x,
    decreases n,
{
    if n > 0 {
        lemma_be(x / 256, (n - 1) as nat);
        assert(be(x, n).drop_last() =~= be(x / 256, (n - 1) as nat));
    }
}

/// A byte sequence is the big-endian form of its value.
pub proof fn lemma_be_of_value(bytes: Seq<u8>)
    ensures
        be(be_value(bytes), bytes.len()) == bytes,
        be_value(bytes) < be_bound(bytes.len()),
    decreases bytes.len(),
{
    if bytes.len() > 0 {
        lemma_be_of_value(bytes.drop_last());
        assert(be(be_value(bytes), bytes.len()) =~= bytes);
    }
}

/// The bounds of the widths in use.
pub proof fn lemma_be_bounds()
    ensures
        be_bound(1) == 0x100,
        be_bound(2) == 0x1_0000,
        be_bound(4) == 0x1_0000_0000,
        be_bound(8) == 0x1_0000_0000_0000_0000,
{
    reveal_with_fuel(be_bound, 9);
}

/// Numbers with the same bytes are equal, where both fit.
pub proof fn lemma_be_injective(a: nat, b: nat, n: nat)
    requires
        a < be_bound(n),
        b < be_bound(n),
        be(a, n) == be(b, n),
    ensures
        a == b,
{
    lemma_be(a, n);
    lemma_be(b, n);
}

/// Appends `bytes`.
pub fn push_bytes(out: &mut Vec<u8>, bytes: &[u8])
    ensures
        final(out)@ == old(out)@ + bytes@,
{
    let ghost before = out@;
    out.extend_from_slice(bytes);
    assert(out@ =~= before + bytes@);
}

/// Appends the two bytes of `value`.
pub fn push_u16(out: &mut Vec<u8>, value: u16)
    ensures
        final(out)@ == old(out)@ + be(value as nat, 2),
{
    let ghost before = out@;
    let high1: u16 = value / 256;
    out.push((high1 % 256) as u8);
    out.push((value % 256) as u8);
    proof {
        reveal_with_fuel(be, 3);
        assert(out@ =~= before + be(value as nat, 2));
    }
}

/// Appends the four bytes of `value`.
pub fn push_u32(out: &mut Vec<u8>, value: u32)
    ensures
        final(out)@ == old(out)@ + be(value as nat, 4),
{
    let ghost before = out@;
    let high1: u32 = value / 256;
    let high2: u32 = high1 / 256;
    let high3: u32 = high2 / 256;
    out.push((high3 % 256) as u8);
    out.push((high2 % 256) as u8);
    out.push((high1 % 256) as u8);
    out.push((value % 256) as u8);
    proof {
        reveal_with_fuel(be, 5);
        assert(out@ =~= before + be(value as nat, 4));
    }
}

/// Appends the eight bytes of `value`.
pub fn push_u64(out: &mut Vec<u8>, value: u64)
    ensures
        final(out)@ == old(out)@ + be(value as nat, 8),
{
    let ghost before = out@;
    let high1: u64 = value / 256;
    let high2: u64 = high1 / 256;
    let high3: u64 = high2 / 256;
    let high4: u64 = high3 / 256;
    let high5: u64 = high4 / 256;
    let high6: u64 = high5 / 256;
    let high7: u64 = high6 / 256;
    out.push((high7 % 256) as u8);
    out.push((high6 % 256) as u8);
    out.push((high5 % 256) as u8);
    out.push((high4 % 256) as u8);
    out.push((high3 % 256) as u8);
    out.push((high2 % 256) as u8);
    out.push((high1 % 256) as u8);
    out.push((value % 256) as u8);
    proof {
        reveal_with_fuel(be, 9);
        assert(out@ =~= before + be(value as nat, 8));
    }
}

/// The two bytes at `offset` as a number.
pub fn read_u16(input: &[u8], offset: usize) -> (value: u16)
    requires
        offset + 2 <= input.len(),
    ensures
        value == be_value(input@.subrange(offset as int, offset + 2)),
{
    proof {
        reveal_with_fuel(be_value, 3);
        let bytes = input@.subrange(offset as int, offset + 2);
        assert(bytes.drop_last().drop_last() =~= Seq::<u8>::empty());
    }
    input[offset] as u16 * 0x100 + input[offset + 1] as u16
}

/// The four bytes at `offset` as a number.
pub fn read_u32(input: &[u8], offset: usize) -> (value: u32)
    requires
        offset + 4 <= input.len(),
    ensures
        value == be_value(input@.subrange(offset as int, offset + 4)),
{
    let high: u16 = read_u16(input, offset);
    let low: u16 = read_u16(input, offset + 2);
    proof {
        let bytes = input@.subrange(offset as int, offset + 4);
        lemma_be_value_split(bytes, 2);
        assert(bytes.take(2) =~= input@.subrange(offset as int, offset + 2));
        assert(bytes.skip(2) =~= input@.subrange(offset + 2, offset + 4));
        lemma_be_bounds();
    }
    high as u32 * 0x1_0000 + low as u32
}

/// The eight bytes at `offset` as a number.
pub fn read_u64(input: &[u8], offset: usize) -> (value: u64)
    requires
        offset + 8 <= input.len(),
    ensures
        value == be_value(input@.subrange(offset as int, offset + 8)),
{
    let high: u32 = read_u32(input, offset);
    let low: u32 = read_u32(input, offset + 4);
    proof {
        let bytes = input@.subrange(offset as int, offset + 8);
        lemma_be_value_split(bytes, 4);
        assert(bytes.take(4) =~= input@.subrange(offset as int, offset + 4));
        assert(bytes.skip(4) =~= input@.subrange(offset + 4, offset + 8));
        lemma_be_bounds();
    }
    high as u64 * 0x1_0000_0000 + low as u64
}

proof fn lemma_be_value_split(bytes: Seq<u8>, at: int)
    requires
        0 <= at <= bytes.len(),
    ensures
        be_value(bytes) == be_value(bytes.take(at)) * be_bound((bytes.len() - at) as nat)
            + be_value(bytes.skip(at)),
    decreases bytes.len() - at,
{
    if at == bytes.len() {
        assert(bytes.take(at) =~= bytes);
        assert(be_value(bytes.skip(at)) == 0);
        assert(be_value(bytes) * be_bound(0) == be_value(bytes)) by {
            assert(be_bound(0) == 1);
        }
    } else {
        let shorter = bytes.drop_last();
        lemma_be_value_split(shorter, at);
        assert(shorter.take(at) =~= bytes.take(at));
        assert(shorter.skip(at) =~= bytes.skip(at).drop_last());
        assert(bytes.skip(at).last() == bytes.last());
        let high = be_value(bytes.take(at));
        let bound = be_bound((shorter.len() - at) as nat);
        assert(be_bound((bytes.len() - at) as nat) == bound * 256);
        assert(high * (bound * 256) == (high * bound) * 256) by (nonlinear_arith);
    }
}

/// A copy of the bytes from `from` up to `to`.
pub fn copy_range(input: &[u8], from: usize, to: usize) -> (bytes: Vec<u8>)
    requires
        from <= to <= input@.len(),
    ensures
        bytes@ == input@.subrange(from as int, to as int),
{
    let mut bytes: Vec<u8> = Vec::new();
    push_bytes(&mut bytes, vstd::slice::slice_subrange(input, from, to));
    assert(bytes@ =~= input@.subrange(from as int, to as int));
    bytes
}

/// Whether the two byte sequences are equal.
pub fn same_bytes(left: &[u8], right: &[u8]) -> (same: bool)
    ensures
        same == (left@ == right@),
{
    if left.len() != right.len() {
        return false;
    }
    let mut index: usize = 0;
    while index < left.len()
        invariant
            index <= left@.len(),
            left@.len() == right@.len(),
            forall|i: int| 0 <= i < index ==> left@[i] == right@[i],
        decreases left@.len() - index,
    {
        if left[index] != right[index] {
            return false;
        }
        index += 1;
    }
    assert(left@ =~= right@);
    true
}

} // verus!
