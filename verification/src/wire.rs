//! Integers as bytes on the wire.

use vstd::prelude::*;

verus! {

/// A 16-bit integer, low byte first.
pub open spec fn le16(n: int) -> Seq<u8> {
    seq![(n % 256) as u8, (n / 256 % 256) as u8]
}

/// A 16-bit integer, high byte first.
pub open spec fn be16(n: int) -> Seq<u8> {
    seq![(n / 256 % 256) as u8, (n % 256) as u8]
}

/// A 32-bit integer, low byte first.
pub open spec fn le32(n: int) -> Seq<u8> {
    le16(n % 65536) + le16(n / 65536 % 65536)
}

/// A 64-bit integer, low byte first.
#[verifier::opaque]
pub open spec fn le64(n: int) -> Seq<u8> {
    le32(n % 0x1_0000_0000) + le32(n / 0x1_0000_0000 % 0x1_0000_0000)
}

/// The bytes of a 16-bit integer, low byte first.
pub fn bytes16(n: u16) -> (r: Vec<u8>)
    ensures
        r@ == le16(n as int),
{
    let r: Vec<u8> = vec![(n % 256) as u8, (n / 256) as u8];
    assert(r@ =~= le16(n as int));
    r
}

/// The bytes of a 32-bit integer, low byte first.
pub fn bytes32(n: u32) -> (r: Vec<u8>)
    ensures
        r@ == le32(n as int),
{
    let low: u16 = (n % 0x1_0000) as u16;
    let high: u16 = (n / 0x1_0000) as u16;
    assert(low as int == n as int % 65536);
    assert(high as int == n as int / 65536 % 65536);
    let mut r = bytes16(low);
    let mut rest = bytes16(high);
    r.append(&mut rest);
    r
}

/// The bytes of a 64-bit integer, low byte first.
pub fn bytes64(n: u64) -> (r: Vec<u8>)
    ensures
        r@ == le64(n as int),
{
    let low: u32 = (n % 0x1_0000_0000) as u32;
    let high: u32 = (n / 0x1_0000_0000) as u32;
    assert(low as int == n as int % 0x1_0000_0000);
    assert(high as int == n as int / 0x1_0000_0000 % 0x1_0000_0000);
    let mut r = bytes32(low);
    let mut rest = bytes32(high);
    r.append(&mut rest);
    proof {
        reveal(le64);
    }
    r
}

/// The 16-bit integer that two bytes make, the low one first.
pub open spec fn word(bytes: Seq<u8>, at: int) -> int {
    bytes[at] + 256 * bytes[at + 1]
}

/// The 32-bit integer that four bytes make, the low one first.
pub open spec fn double_word(bytes: Seq<u8>, at: int) -> int {
    bytes[at] + 256 * bytes[at + 1] + 65536 * bytes[at + 2] + 16777216 * bytes[at + 3]
}

/// What is written as a 16-bit integer is read back, low byte first or high byte first.
pub proof fn lemma_word_back(n: int)
    requires
        0 <= n <= u16::MAX,
    ensures
        le16(n).len() == 2,
        word(le16(n), 0) == n,
        be16(n).len() == 2,
        be16(n)[0] * 256 + be16(n)[1] == n,
{
}

/// What is written as a 32-bit integer is read back.
pub proof fn lemma_double_word_back(n: int)
    requires
        0 <= n <= u32::MAX,
    ensures
        le32(n).len() == 4,
        double_word(le32(n), 0) == n,
{
    let low = n % 65536;
    let high = n / 65536 % 65536;
    lemma_word_back(low);
    lemma_word_back(high);
    assert(le32(n)[0] == le16(low)[0] && le32(n)[1] == le16(low)[1]);
    assert(le32(n)[2] == le16(high)[0] && le32(n)[3] == le16(high)[1]);
}

/// What is written as a 64-bit integer is read back.
pub proof fn lemma_long_back(n: int)
    requires
        0 <= n <= u64::MAX,
    ensures
        le64(n).len() == 8,
        double_word(le64(n), 0) + 0x1_0000_0000 * double_word(le64(n), 4) == n,
{
    reveal(le64);
    let low = n % 0x1_0000_0000;
    let high = n / 0x1_0000_0000 % 0x1_0000_0000;
    lemma_double_word_back(low);
    lemma_double_word_back(high);
    assert(forall|k: int| 0 <= k < 4 ==> le64(n)[k] == le32(low)[k]);
    assert(forall|k: int| 4 <= k < 8 ==> le64(n)[k] == le32(high)[k - 4]);
}

/// Different integers are written differently.
pub proof fn lemma_written_apart(a: int, b: int)
    ensures
        0 <= a <= u16::MAX && 0 <= b <= u16::MAX && le16(a) == le16(b) ==> a == b,
        0 <= a <= u64::MAX && 0 <= b <= u64::MAX && le64(a) == le64(b) ==> a == b,
{
    if 0 <= a <= u16::MAX && 0 <= b <= u16::MAX && le16(a) == le16(b) {
        lemma_word_back(a);
        lemma_word_back(b);
    }
    if 0 <= a <= u64::MAX && 0 <= b <= u64::MAX && le64(a) == le64(b) {
        lemma_long_back(a);
        lemma_long_back(b);
    }
}

} // verus!
