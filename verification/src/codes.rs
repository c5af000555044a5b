//! Sums and Base64 as they are on the line: CRC32, and the standard alphabet with
//! padding.

use vstd::prelude::*;

use crate::outside::b64_decode;

verus! {

/// The register of the CRC one bit further.
pub open spec fn crc_bit(register: u32) -> u32 {
    if register & 1 == 1 {
        (register >> 1) ^ 0xedb88320
    } else {
        register >> 1
    }
}

/// The register of the CRC some bits further.
pub open spec fn crc_bits(register: u32, n: nat) -> u32
    decreases n,
{
    if n == 0 {
        register
    } else {
        crc_bit(crc_bits(register, (n - 1) as nat))
    }
}

/// The register of the CRC behind some bytes.
pub open spec fn crc_register(data: Seq<u8>) -> u32
    decreases data.len(),
{
    if data.len() == 0 {
        0xffffffff
    } else {
        crc_bits(crc_register(data.drop_last()) ^ data.last() as u32, 8)
    }
}

/// The CRC32 of some bytes: the reflected polynomial of Ethernet and ZIP, with
/// all bits set at the start and turned round at the end.
#[verifier::opaque]
pub open spec fn crc32_of(data: Seq<u8>) -> u32 {
    crc_register(data) ^ 0xffffffff
}

/// A digit of the standard Base64 alphabet.
pub open spec fn b64_digit(n: int) -> char {
    if n < 26 {
        ('A' as int + n) as char
    } else if n < 52 {
        ('a' as int + n - 26) as char
    } else if n < 62 {
        ('0' as int + n - 52) as char
    } else if n == 62 {
        '+'
    } else {
        '/'
    }
}

/// The text that the standard Base64 alphabet with padding gives to some bytes:
/// four digits for each three bytes.
pub open spec fn b64_encoded(data: Seq<u8>) -> Seq<char>
    decreases data.len(),
{
    let a = data[0] as int;
    let b = data[1] as int;
    let c = data[2] as int;
    if data.len() == 0 {
        Seq::empty()
    } else if data.len() == 1 {
        seq![b64_digit(a / 4), b64_digit(a % 4 * 16), '=', '=']
    } else if data.len() == 2 {
        seq![b64_digit(a / 4), b64_digit(a % 4 * 16 + b / 16), b64_digit(b % 16 * 4), '=']
    } else {
        seq![
            b64_digit(a / 4),
            b64_digit(a % 4 * 16 + b / 16),
            b64_digit(b % 16 * 4 + c / 64),
            b64_digit(c % 64),
        ] + b64_encoded(data.skip(3))
    }
}

/// The bytes of a Base64 text, or `None` where it is none.
pub open spec fn b64_decoded(text: Seq<char>) -> Option<Seq<u8>> {
    if exists|data: Seq<u8>| #[trigger] b64_encoded(data) == text {
        Some(choose|data: Seq<u8>| #[trigger] b64_encoded(data) == text)
    } else {
        None
    }
}

proof fn lemma_b64_digit(m: int, n: int)
    requires
        0 <= m < 64,
        0 <= n < 64,
    ensures
        b64_digit(m) == b64_digit(n) ==> m == n,
        b64_digit(m) != '=',
{
}

proof fn lemma_b64_differs(x: Seq<u8>, y: Seq<u8>)
    requires
        b64_encoded(x) == b64_encoded(y),
    ensures
        x == y,
    decreases x.len(),
{
    let s = b64_encoded(x);
    let t = b64_encoded(y);
    if x.len() == 0 || y.len() == 0 {
        assert(x.len() > 0 ==> s.len() >= 4);
        assert(y.len() > 0 ==> t.len() >= 4);
        assert(x =~= y);
    } else {
        let (a, b, c) = (x[0] as int, x[1] as int, x[2] as int);
        let (d, e, f) = (y[0] as int, y[1] as int, y[2] as int);
        assert(s[0] == t[0] && s[1] == t[1] && s[2] == t[2] && s[3] == t[3]);
        lemma_b64_digit(a / 4, d / 4);
        lemma_b64_digit(b % 16 * 4, e % 16 * 4);
        lemma_b64_digit(e % 16 * 4, b % 16 * 4);
        lemma_b64_digit(b % 16 * 4 + c / 64, e % 16 * 4 + f / 64);
        lemma_b64_digit(e % 16 * 4 + f / 64, b % 16 * 4 + c / 64);
        lemma_b64_digit(c % 64, f % 64);
        lemma_b64_digit(f % 64, c % 64);
        lemma_b64_digit(a % 4 * 16, d % 4 * 16);
        lemma_b64_digit(a % 4 * 16 + b / 16, d % 4 * 16 + e / 16);
        if x.len() >= 3 && y.len() >= 3 {
            assert(b64_encoded(x.skip(3)) =~= s.skip(4));
            assert(b64_encoded(y.skip(3)) =~= t.skip(4));
            lemma_b64_differs(x.skip(3), y.skip(3));
            assert(x =~= seq![x[0], x[1], x[2]] + x.skip(3));
            assert(y =~= seq![y[0], y[1], y[2]] + y.skip(3));
        } else {
            assert(x.len() == y.len());
        }
        assert(x =~= y);
    }
}

/// Different bytes have different Base64 texts, so that a text decodes to the
/// bytes that it was made of.
pub proof fn law_base64_reads_back(data: Seq<u8>)
    ensures
        b64_decoded(b64_encoded(data)) == Some(data),
{
    let back = choose|d: Seq<u8>| #[trigger] b64_encoded(d) == b64_encoded(data);
    lemma_b64_differs(data, back);
}

/// The bytes of a Base64 text, or `None` where it is none.
pub fn read_base64(text: &str) -> (r: Option<Vec<u8>>)
    ensures
        match r {
            Some(data) => b64_decoded(text@) == Some(data@),
            None => b64_decoded(text@) is None,
        },
{
    let r = b64_decode(text);
    proof {
        if r is Some {
            law_base64_reads_back(r->0@);
        }
    }
    r
}

} // verus!
