//! Numbers as bytes.

use vstd::prelude::*;

verus! {

/// The bytes of a 32-bit number, the lowest first.
pub open spec fn le32(x: u32) -> Seq<u8> {
    seq![
        (x % 0x100) as u8,
        (x / 0x100 % 0x100) as u8,
        (x / 0x1_0000 % 0x100) as u8,
        (x / 0x100_0000) as u8,
    ]
}

/// The bytes of a 64-bit number, the lowest first.
pub open spec fn le64(x: u64) -> Seq<u8> {
    le32((x % 0x1_0000_0000) as u32) + le32((x / 0x1_0000_0000) as u32)
}

/// The number whose bytes, the highest first, these are.
pub open spec fn be_number(bytes: Seq<u8>) -> nat
    decreases bytes.len(),
{
    if bytes.len() == 0 {
        0
    } else {
        be_number(bytes.drop_last()) * 0x100 + bytes.last() as nat
    }
}

/// Equal bytes come from equal 32-bit numbers.
pub proof fn law_le32_injective(x: u32, y: u32)
    requires
        le32(x) == le32(y),
    ensures
        x == y,
{
    let (a, b) = (le32(x), le32(y));
    assert(a[0] == b[0] && a[1] == b[1] && a[2] == b[2] && a[3] == b[3]);
    assert(x % 0x100 == y % 0x100);
    assert(x / 0x100 % 0x100 == y / 0x100 % 0x100);
    assert(x / 0x1_0000 % 0x100 == y / 0x1_0000 % 0x100);
    assert(x / 0x100_0000 == y / 0x100_0000);
}

/// Equal bytes come from equal 64-bit numbers.
pub proof fn law_le64_injective(x: u64, y: u64)
    requires
        le64(x) == le64(y),
    ensures
        x == y,
{
    let (low_x, high_x) = ((x % 0x1_0000_0000) as u32, (x / 0x1_0000_0000) as u32);
    let (low_y, high_y) = ((y % 0x1_0000_0000) as u32, (y / 0x1_0000_0000) as u32);
    assert(le32(low_x) =~= le64(x).take(4));
    assert(le32(low_y) =~= le64(y).take(4));
    assert(le32(high_x) =~= le64(x).skip(4));
    assert(le32(high_y) =~= le64(y).skip(4));
    law_le32_injective(low_x, low_y);
    law_le32_injective(high_x, high_y);
}

/// How many values `n` bytes can have.
pub open spec fn values(n: nat) -> nat
    decreases n,
{
    if n == 0 {
        1
    } else {
        0x100 * values((n - 1) as nat)
    }
}

/// A number is less than the number of values that its bytes can have.
pub proof fn lemma_be_number_bound(bytes: Seq<u8>)
    ensures
        be_number(bytes) < values(bytes.len()),
    decreases bytes.len(),
{
    if bytes.len() > 0 {
        lemma_be_number_bound(bytes.drop_last());
    }
}

/// Reads a 64-bit number, the highest byte first.
pub fn read_be64(bytes: &Vec<u8>, at: usize) -> (x: u64)
    requires
        at + 8 <= bytes.len(),
    ensures
        x == be_number(bytes@.subrange(at as int, at + 8)),
{
    let mut x: u64 = 0;
    let mut i: usize = 0;
    assert(bytes@.subrange(at as int, at as int) =~= Seq::empty());
    while i < 8
        invariant
            i <= 8,
            at + 8 <= bytes.len(),
            x == be_number(bytes@.subrange(at as int, at + i)),
        decreases 8 - i,
    {
        proof {
            let next = bytes@.subrange(at as int, at + i + 1);
            assert(next.drop_last() =~= bytes@.subrange(at as int, at + i));
            lemma_be_number_bound(next);
            reveal_with_fuel(values, 9);
        }
        x = x * 0x100 + bytes[at + i] as u64;
        i += 1;
    }
    x
}

/// The four bytes of a 32-bit number add up to it, the first with the lowest weight.
pub proof fn law_le32_value(x: u32)
    ensures
        le32(x).len() == 4,
        x == le32(x)[0] + 0x100 * le32(x)[1] + 0x1_0000 * le32(x)[2] + 0x100_0000 * le32(x)[3],
{
}

/// The eight bytes of a 64-bit number add up to it, the first with the lowest weight.
pub proof fn law_le64_value(x: u64)
    ensures
        le64(x).len() == 8,
        x == le64(x)[0] + 0x100 * le64(x)[1] + 0x1_0000 * le64(x)[2] + 0x100_0000 * le64(x)[3]
            + 0x1_0000_0000 * (le64(x)[4] + 0x100 * le64(x)[5] + 0x1_0000 * le64(x)[6]
            + 0x100_0000 * le64(x)[7]),
{
    let (low, high) = ((x % 0x1_0000_0000) as u32, (x / 0x1_0000_0000) as u32);
    law_le32_value(low);
    law_le32_value(high);
    assert(x == low + 0x1_0000_0000 * high);
}

/// Eight bytes, the first with the highest weight, add up to the number that is read from them.
pub proof fn law_be64_value(bytes: Seq<u8>)
    requires
        bytes.len() == 8,
    ensures
        be_number(bytes) == 0x1_0000_0000 * (0x100_0000 * bytes[0] + 0x1_0000 * bytes[1] + 0x100
            * bytes[2] + bytes[3]) + 0x100_0000 * bytes[4] + 0x1_0000 * bytes[5] + 0x100 * bytes[6]
            + bytes[7],
        be_number(bytes) <= u64::MAX,
{
    reveal_with_fuel(be_number, 9);
}

} // verus!
