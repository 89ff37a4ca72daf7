//! The length header: the byte count of the payload as four bytes, most
//! significant first.

use vstd::arithmetic::div_mod::{lemma_div_denominator, lemma_fundamental_div_mod_converse};
use vstd::prelude::*;

verus! {

/// The largest byte count that the header can hold.
pub const MAX_LENGTH: u32 = 0xffff_ffff;

/// The number that four bytes spell, most significant byte first.
pub open spec fn be_value(b: Seq<u8>) -> nat
    recommends
        b.len() == 4,
{
    (b[0] * 0x100_0000 + b[1] * 0x1_0000 + b[2] * 0x100 + b[3]) as nat
}

/// The four bytes that spell `n`, most significant byte first.
pub open spec fn be_bytes(n: nat) -> Seq<u8>
    recommends
        n <= MAX_LENGTH,
{
    seq![
        (n / 0x100_0000 % 0x100) as u8,
        (n / 0x1_0000 % 0x100) as u8,
        (n / 0x100 % 0x100) as u8,
        (n % 0x100) as u8,
    ]
}

/// Spelling a number and reading the bytes gives the number back.
pub proof fn lemma_be_value_of_bytes(n: nat)
    requires
        n <= MAX_LENGTH,
    ensures
        be_bytes(n).len() == 4,
        be_value(be_bytes(n)) == n,
{
    let n = n as int;
    let n1 = n / 0x100;
    let n2 = n1 / 0x100;
    let n3 = n2 / 0x100;
    lemma_div_denominator(n, 0x100, 0x100);
    lemma_div_denominator(n, 0x1_0000, 0x100);
    assert(n2 == n / 0x1_0000 && n3 == n / 0x100_0000);
    assert(n == 0x100 * n1 + n % 0x100);
    assert(n1 == 0x100 * n2 + n1 % 0x100);
    assert(n2 == 0x100 * n3 + n2 % 0x100);
    assert(n3 % 0x100 == n3);
}

proof fn lemma_digits(a: int, b: int, c: int, d: int)
    requires
        0 <= a < 0x100,
        0 <= b < 0x100,
        0 <= c < 0x100,
        0 <= d < 0x100,
    ensures
        ({
            let v = a * 0x100_0000 + b * 0x1_0000 + c * 0x100 + d;
            &&& 0 <= v <= MAX_LENGTH
            &&& v / 0x100_0000 % 0x100 == a
            &&& v / 0x1_0000 % 0x100 == b
            &&& v / 0x100 % 0x100 == c
            &&& v % 0x100 == d
        }),
{
    let v = a * 0x100_0000 + b * 0x1_0000 + c * 0x100 + d;
    lemma_fundamental_div_mod_converse(v, 0x100, a * 0x1_0000 + b * 0x100 + c, d);
    lemma_fundamental_div_mod_converse(a * 0x1_0000 + b * 0x100 + c, 0x100, a * 0x100 + b, c);
    lemma_fundamental_div_mod_converse(v, 0x1_0000, a * 0x100 + b, c * 0x100 + d);
    lemma_fundamental_div_mod_converse(a * 0x100 + b, 0x100, a, b);
    lemma_fundamental_div_mod_converse(v, 0x100_0000, a, b * 0x1_0000 + c * 0x100 + d);
    lemma_fundamental_div_mod_converse(a, 0x100, 0, a);
}

/// Reading four bytes gives a number that fits the header, and spelling it
/// gives the same four bytes back.
pub proof fn lemma_be_bytes_of_value(b: Seq<u8>)
    requires
        b.len() == 4,
    ensures
        be_value(b) <= MAX_LENGTH,
        be_bytes(be_value(b)) == b,
{
    lemma_digits(b[0] as int, b[1] as int, b[2] as int, b[3] as int);
    let back = be_bytes(be_value(b));
    assert(back.len() == 4);
    assert(back[0] == b[0]);
    assert(back[1] == b[1]);
    assert(back[2] == b[2]);
    assert(back[3] == b[3]);
    assert(back =~= b);
}

/// The header for a payload of `n` bytes.
pub fn encode_length(n: u32) -> (b: [u8; 4])
    ensures
        b@ == be_bytes(n as nat),
{
    let b: [u8; 4] = [
        (n / 0x100_0000) as u8,
        (n / 0x1_0000 % 0x100) as u8,
        (n / 0x100 % 0x100) as u8,
        (n % 0x100) as u8,
    ];
    assert(b@ =~= be_bytes(n as nat));
    b
}

/// The byte count that a header declares.
pub fn decode_length(b: [u8; 4]) -> (n: u32)
    ensures
        n == be_value(b@),
{
    (b[0] as u32) * 0x100_0000 + (b[1] as u32) * 0x1_0000 + (b[2] as u32) * 0x100 + (b[3] as u32)
}

} // verus!
