use vstd::prelude::*;

verus! {

/// The standard base64 alphabet (RFC 4648): `A`-`Z`, `a`-`z`, `0`-`9`, `+`, `/`.
pub open spec fn b64_digit(n: int) -> char {
    if n < 26 {
        (65 + n) as char
    } else if n < 52 {
        (71 + n) as char
    } else if n < 62 {
        (n - 4) as char
    } else if n == 62 {
        '+'
    } else {
        '/'
    }
}

/// The value of a base64 digit.
pub open spec fn b64_value(c: char) -> int {
    let x = c as int;
    if 65 <= x <= 90 {
        x - 65
    } else if 97 <= x <= 122 {
        x - 71
    } else if 48 <= x <= 57 {
        x + 4
    } else if c == '+' {
        62
    } else {
        63
    }
}

/// The standard base64 encoding with padding (RFC 4648): each three bytes
/// become four digits of six bits each; a last group of one or two bytes is
/// padded with `=` to four characters.
pub open spec fn base64_standard(b: Seq<u8>) -> Seq<char>
    decreases b.len(),
{
    if b.len() == 0 {
        Seq::empty()
    } else {
        let x = b[0] as int;
        let y = if b.len() > 1 { b[1] as int } else { 0 };
        let z = if b.len() > 2 { b[2] as int } else { 0 };
        if b.len() == 1 {
            seq![b64_digit(x / 4), b64_digit((x % 4) * 16), '=', '=']
        } else if b.len() == 2 {
            seq![b64_digit(x / 4), b64_digit((x % 4) * 16 + y / 16), b64_digit((y % 16) * 4), '=']
        } else {
            seq![b64_digit(x / 4), b64_digit((x % 4) * 16 + y / 16), b64_digit((y % 16) * 4 + z / 64),
                b64_digit(z % 64)] + base64_standard(b.subrange(3, b.len() as int))
        }
    }
}

/// Decoding standard base64 with padding, four characters at a time.
pub open spec fn base64_decode(s: Seq<char>) -> Seq<u8>
    decreases s.len(),
{
    if s.len() < 4 {
        Seq::empty()
    } else {
        let v0 = b64_value(s[0]);
        let v1 = b64_value(s[1]);
        let v2 = b64_value(s[2]);
        let v3 = b64_value(s[3]);
        let a = (v0 * 4 + v1 / 16) as u8;
        if s[2] == '=' {
            seq![a]
        } else {
            let b = ((v1 % 16) * 16 + v2 / 4) as u8;
            if s[3] == '=' {
                seq![a, b]
            } else {
                seq![a, b, ((v2 % 4) * 64 + v3) as u8] + base64_decode(s.subrange(4, s.len() as int))
            }
        }
    }
}

proof fn lemma_digit(n: int)
    requires
        0 <= n < 64,
    ensures
        b64_value(b64_digit(n)) == n,
        b64_digit(n) != '=',
{
    if n < 26 {
        assert(((65 + n) as char) as int == 65 + n);
    } else if n < 52 {
        assert(((71 + n) as char) as int == 71 + n);
    } else if n < 62 {
        assert(((n - 4) as char) as int == n - 4);
    }
}

proof fn lemma_group(a: int, b: int, d: int)
    requires
        0 <= a < 256,
        0 <= b < 256,
        0 <= d < 256,
    ensures
        (a / 4) * 4 + ((a % 4) * 16 + b / 16) / 16 == a,
        (((a % 4) * 16 + b / 16) % 16) * 16 + ((b % 16) * 4 + d / 64) / 4 == b,
        (((b % 16) * 4 + d / 64) % 4) * 64 + d % 64 == d,
        0 <= (a % 4) * 16 + b / 16 < 64,
        0 <= (b % 16) * 4 + d / 64 < 64,
{
    assert((a / 4) * 4 + ((a % 4) * 16 + b / 16) / 16 == a) by (nonlinear_arith)
        requires 0 <= a < 256, 0 <= b < 256;
    assert((((a % 4) * 16 + b / 16) % 16) * 16 + ((b % 16) * 4 + d / 64) / 4 == b) by (nonlinear_arith)
        requires 0 <= a < 256, 0 <= b < 256, 0 <= d < 256;
    assert((((b % 16) * 4 + d / 64) % 4) * 64 + d % 64 == d) by (nonlinear_arith)
        requires 0 <= b < 256, 0 <= d < 256;
    assert(0 <= (a % 4) * 16 + b / 16 < 64) by (nonlinear_arith)
        requires 0 <= a < 256, 0 <= b < 256;
    assert(0 <= (b % 16) * 4 + d / 64 < 64) by (nonlinear_arith)
        requires 0 <= b < 256, 0 <= d < 256;
}

/// Decoding the standard base64 encoding of some bytes gives the bytes back.
pub proof fn law_base64_round_trip(b: Seq<u8>)
    ensures
        base64_decode(base64_standard(b)) == b,
    decreases b.len(),
{
    let s = base64_standard(b);
    if b.len() == 0 {
    } else if b.len() == 1 {
        let x = b[0] as int;
        lemma_digit(x / 4);
        lemma_group(x, 0, 0);
        lemma_digit((x % 4) * 16);
        assert(base64_decode(s) =~= b);
    } else if b.len() == 2 {
        let (x, y) = (b[0] as int, b[1] as int);
        lemma_digit(x / 4);
        lemma_group(x, y, 0);
        lemma_digit((x % 4) * 16 + y / 16);
        lemma_digit((y % 16) * 4);
        assert(base64_decode(s) =~= b);
    } else {
        let rest = b.subrange(3, b.len() as int);
        let (x, y, z) = (b[0] as int, b[1] as int, b[2] as int);
        lemma_group(x, y, z);
        lemma_digit(x / 4);
        lemma_digit((x % 4) * 16 + y / 16);
        lemma_digit((y % 16) * 4 + z / 64);
        lemma_digit(z % 64);
        law_base64_round_trip(rest);
        assert(s.subrange(4, s.len() as int) =~= base64_standard(rest));
        assert(base64_decode(s) =~= seq![b[0], b[1], b[2]] + rest);
        assert(seq![b[0], b[1], b[2]] + rest =~= b);
    }
}

} // verus!
