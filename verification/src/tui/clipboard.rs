//! Copying to the clipboard by a terminal escape sequence (OSC 52): its
//! payload is text in base64.

use vstd::prelude::*;

use crate::text::concat3;

verus! {

/// The character that stands for six bits.
pub open spec fn base64_char(n: int) -> char {
    if n < 26 {
        (65 + n) as char
    } else if n < 52 {
        (97 + n - 26) as char
    } else if n < 62 {
        (48 + n - 52) as char
    } else if n == 62 {
        '+'
    } else {
        '/'
    }
}

/// The six bits that a character stands for.
pub open spec fn base64_bits(c: char) -> int {
    let n = c as int;
    if 65 <= n <= 90 {
        n - 65
    } else if 97 <= n <= 122 {
        n - 97 + 26
    } else if 48 <= n <= 57 {
        n - 48 + 52
    } else if c == '+' {
        62
    } else {
        63
    }
}

/// Standard base64 (RFC 4648) with padding.
pub open spec fn base64(bytes: Seq<u8>) -> Seq<char>
    decreases bytes.len(),
{
    if bytes.len() == 0 {
        seq![]
    } else if bytes.len() == 1 {
        let n = bytes[0] as int * 0x10000;
        seq![base64_char(n / 0x40000), base64_char(n / 0x1000 % 64), '=', '=']
    } else if bytes.len() == 2 {
        let n = bytes[0] as int * 0x10000 + bytes[1] as int * 0x100;
        seq![
            base64_char(n / 0x40000),
            base64_char(n / 0x1000 % 64),
            base64_char(n / 0x40 % 64),
            '=',
        ]
    } else {
        let n = bytes[0] as int * 0x10000 + bytes[1] as int * 0x100 + bytes[2] as int;
        seq![
            base64_char(n / 0x40000),
            base64_char(n / 0x1000 % 64),
            base64_char(n / 0x40 % 64),
            base64_char(n % 64),
        ] + base64(bytes.skip(3))
    }
}

/// The bytes that a base64 text stands for.
pub open spec fn from_base64(s: Seq<char>) -> Seq<u8>
    decreases s.len(),
{
    if s.len() < 4 {
        seq![]
    } else {
        let n = base64_bits(s[0]) * 0x40000 + base64_bits(s[1]) * 0x1000;
        if s[2] == '=' {
            seq![(n / 0x10000) as u8]
        } else if s[3] == '=' {
            let m = n + base64_bits(s[2]) * 0x40;
            seq![(m / 0x10000) as u8, (m / 0x100 % 256) as u8]
        } else {
            let m = n + base64_bits(s[2]) * 0x40 + base64_bits(s[3]);
            seq![(m / 0x10000) as u8, (m / 0x100 % 256) as u8, (m % 256) as u8] + from_base64(
                s.skip(4),
            )
        }
    }
}

/// A character stands for the bits that it was made of, and is no padding.
proof fn lemma_base64_char(n: int)
    requires
        0 <= n < 64,
    ensures
        base64_bits(base64_char(n)) == n,
        base64_char(n) != '=',
{
}

/// Four groups of six bits make up the 24 bits that they were taken from, and
/// so do three bytes.
proof fn lemma_groups(b0: int, b1: int, b2: int)
    requires
        0 <= b0 < 256,
        0 <= b1 < 256,
        0 <= b2 < 256,
    ensures
        ({
            let n = b0 * 0x10000 + b1 * 0x100 + b2;
            &&& 0 <= n / 0x40000 < 64
            &&& n == n / 0x40000 * 0x40000 + n / 0x1000 % 64 * 0x1000 + n / 0x40 % 64 * 0x40 + n
                % 64
            &&& n / 0x10000 == b0
            &&& n / 0x100 % 256 == b1
            &&& n % 256 == b2
        }),
{
    let n = b0 * 0x10000 + b1 * 0x100 + b2;
    let m = n as u32;
    assert(m == m / 0x40000 * 0x40000 + m / 0x1000 % 64 * 0x1000 + m / 0x40 % 64 * 0x40 + m % 64)
        by (bit_vector)
        requires
            m < 0x100_0000,
    ;
    assert(n / 0x100 == b0 * 0x100 + b1);
}

/// Three bytes or fewer are read back from their characters.
proof fn lemma_chunk(bytes: Seq<u8>)
    requires
        1 <= bytes.len() <= 3,
    ensures
        from_base64(base64(bytes)) == bytes,
        base64(bytes).len() == 4,
        bytes.len() == 3 ==> base64(bytes)[2] != '=' && base64(bytes)[3] != '=',
{
    let s = base64(bytes);
    let b0 = bytes[0] as int;
    let b1 = if bytes.len() > 1 {
        bytes[1] as int
    } else {
        0
    };
    let b2 = if bytes.len() > 2 {
        bytes[2] as int
    } else {
        0
    };
    lemma_groups(b0, b1, b2);
    let n = b0 * 0x10000 + b1 * 0x100 + b2;
    let (g0, g1, g2, g3) = (n / 0x40000, n / 0x1000 % 64, n / 0x40 % 64, n % 64);
    lemma_base64_char(g0);
    lemma_base64_char(g1);
    lemma_base64_char(g2);
    lemma_base64_char(g3);
    assert(s[0] == base64_char(g0) && s[1] == base64_char(g1));
    if bytes.len() == 1 {
        assert(s[2] == '=');
        assert(from_base64(s) =~= bytes);
    } else if bytes.len() == 2 {
        assert(s[2] == base64_char(g2) && s[3] == '=');
        assert(from_base64(s) =~= bytes);
    } else {
        assert(bytes.skip(3) =~= seq![]);
        assert(base64(bytes.skip(3)) =~= seq![]);
        assert(s.skip(4) =~= seq![]);
        assert(from_base64(s.skip(4)) =~= seq![]);
        assert(s[2] == base64_char(g2) && s[3] == base64_char(g3));
        assert(from_base64(s) =~= bytes);
    }
}

/// What is decoded is what was encoded.
pub proof fn law_base64_can_be_read_back(bytes: Seq<u8>)
    ensures
        from_base64(base64(bytes)) == bytes,
        base64(bytes).len() == (bytes.len() + 2) / 3 * 4,
    decreases bytes.len(),
{
    let s = base64(bytes);
    if bytes.len() == 0 {
        assert(from_base64(s) =~= bytes);
    } else if bytes.len() <= 3 {
        lemma_chunk(bytes);
    } else {
        let first = bytes.take(3);
        let rest = bytes.skip(3);
        lemma_chunk(first);
        law_base64_can_be_read_back(rest);
        assert(first.skip(3) =~= seq![]);
        assert(base64(first.skip(3)) =~= seq![]);
        let t = base64(first);
        assert(s =~= t + base64(rest));
        assert(s.skip(4) =~= base64(rest));
        assert(t.skip(4) =~= seq![]);
        assert(from_base64(t.skip(4)) =~= seq![]);
        assert(s[0] == t[0] && s[1] == t[1] && s[2] == t[2] && s[3] == t[3]);
        assert(from_base64(s) =~= from_base64(t) + from_base64(base64(rest)));
        assert(bytes =~= first + rest);
    }
}

/// The character that stands for six bits.
fn base64_char_of(n: u32) -> (c: char)
    requires
        n < 64,
    ensures
        c == base64_char(n as int),
{
    if n < 26 {
        (65u8 + n as u8) as char
    } else if n < 52 {
        (71u8 + n as u8) as char
    } else if n < 62 {
        ((n - 4) as u8) as char
    } else if n == 62 {
        '+'
    } else {
        '/'
    }
}

/// Standard base64 (RFC 4648) with padding.
pub fn base64_encode(input: &[u8]) -> (out: String)
    ensures
        out@ == base64(input@),
{
    let mut out: String = String::new();
    let mut i: usize = 0;
    let len: usize = input.len();
    assert(input@.skip(0) =~= input@);
    assert(out@ + base64(input@.skip(0)) =~= base64(input@));
    while i < len
        invariant
            i <= len == input@.len(),
            out@ + base64(input@.skip(i as int)) == base64(input@),
        decreases len - i,
    {
        let ghost rest = input@.skip(i as int);
        let ghost before = out@;
        let left: usize = len - i;
        let b0: u32 = input[i] as u32;
        let b1: u32 = if left > 1 {
            input[i + 1] as u32
        } else {
            0
        };
        let b2: u32 = if left > 2 {
            input[i + 2] as u32
        } else {
            0
        };
        let n: u32 = b0 * 0x10000 + b1 * 0x100 + b2;
        out.push(base64_char_of(n / 0x40000));
        out.push(base64_char_of(n / 0x1000 % 64));
        if left > 1 {
            out.push(base64_char_of(n / 0x40 % 64));
        } else {
            out.push('=');
        }
        if left > 2 {
            out.push(base64_char_of(n % 64));
        } else {
            out.push('=');
        }
        let step: usize = if left > 2 {
            3
        } else {
            left
        };
        proof {
            if left > 2 {
                assert(rest.skip(3) =~= input@.skip(i + 3));
            } else {
                assert(input@.skip(i + step) =~= seq![]);
            }
            assert(out@ + base64(input@.skip(i + step)) =~= before + base64(rest));
        }
        i = i + step;
    }
    assert(input@.skip(len as int) =~= seq![]);
    assert(out@ + base64(seq![]) =~= out@);
    out
}

/// The escape sequence that asks the terminal to set its clipboard to `text`.
pub fn copy_sequence(text: &[u8]) -> (sequence: String)
    ensures
        sequence@ == "\x1b]52;c;"@ + base64(text@) + "\x07"@,
{
    concat3("\x1b]52;c;", base64_encode(text).as_str(), "\x07")
}

} // verus!
