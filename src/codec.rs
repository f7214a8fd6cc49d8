//! URL-safe base64 without padding, as used in ruleset provider URLs.
use vstd::prelude::*;
use vstd::utf8::encode_utf8;
use crate::text::chars_of;

verus! {

/// The URL-safe base64 digit for the 6-bit value `v`.
pub open spec fn b64_digit(v: int) -> char {
    "ABCDEFGHIJKLMNOPQRSTUVWXYZabcdefghijklmnopqrstuvwxyz0123456789-_"@[v]
}

/// URL-safe base64 of `s` without `=` padding: each group of three bytes
/// becomes four digits, a final group of two bytes three, of one byte two.
pub open spec fn b64url(s: Seq<u8>) -> Seq<char>
    decreases s.len(),
{
    let (x, y, z) = (s[0] as int, s[1] as int, s[2] as int);
    if s.len() == 0 {
        seq![]
    } else if s.len() == 1 {
        seq![b64_digit(x / 4), b64_digit((x % 4) * 16)]
    } else if s.len() == 2 {
        seq![
            b64_digit(x / 4),
            b64_digit((x % 4) * 16 + y / 16),
            b64_digit((y % 16) * 4),
        ]
    } else {
        seq![
            b64_digit(x / 4),
            b64_digit((x % 4) * 16 + y / 16),
            b64_digit((y % 16) * 4 + z / 64),
            b64_digit(z % 64),
        ] + b64url(s.skip(3))
    }
}

/// URL-safe base64 (`-` and `_` for `+` and `/`) of the UTF-8 bytes of `s`, without padding.
pub fn url_safe_base64_encode(s: &str) -> (r: String)
    ensures
        r@ == b64url(encode_utf8(s@)),
{
    let b = s.as_bytes();
    let table = chars_of("ABCDEFGHIJKLMNOPQRSTUVWXYZabcdefghijklmnopqrstuvwxyz0123456789-_");
    proof {
        reveal_strlit("ABCDEFGHIJKLMNOPQRSTUVWXYZabcdefghijklmnopqrstuvwxyz0123456789-_");
    }
    let mut out: Vec<char> = Vec::new();
    let mut i: usize = 0;
    assert(b@.skip(0) =~= b@);
    while b.len() - i >= 3
        invariant
            table@ == "ABCDEFGHIJKLMNOPQRSTUVWXYZabcdefghijklmnopqrstuvwxyz0123456789-_"@,
            table@.len() == 64,
            b@ == encode_utf8(s@),
            i <= b.len(),
            b64url(b@) == out@ + b64url(b@.skip(i as int)),
        decreases b.len() - i,
    {
        let (x, y, z) = (b[i], b[i + 1], b[i + 2]);
        out.push(table[(x / 4) as usize]);
        out.push(table[((x % 4) * 16 + y / 16) as usize]);
        out.push(table[((y % 16) * 4 + z / 64) as usize]);
        out.push(table[(z % 64) as usize]);
        proof {
            assert(b@.skip(i as int).skip(3) =~= b@.skip(i + 3));
        }
        i += 3;
    }
    let rest = b.len() - i;
    if rest == 1 {
        let x = b[i];
        out.push(table[(x / 4) as usize]);
        out.push(table[((x % 4) * 16) as usize]);
    } else if rest == 2 {
        let (x, y) = (b[i], b[i + 1]);
        out.push(table[(x / 4) as usize]);
        out.push(table[((x % 4) * 16 + y / 16) as usize]);
        out.push(table[((y % 16) * 4) as usize]);
    }
    proof {
        assert(out@ =~= b64url(b@));
    }
    crate::text::string_of(out.as_slice())
}

/// The 6-bit value of a URL-safe base64 digit (`+` and `/` read as `-` and `_`).
pub open spec fn b64_value(c: char) -> Option<int> {
    let n = c as u32 as int;
    if 'A' <= c && c <= 'Z' {
        Some(n - 65)
    } else if 'a' <= c && c <= 'z' {
        Some(n - 97 + 26)
    } else if '0' <= c && c <= '9' {
        Some(n - 48 + 52)
    } else if c == '-' || c == '+' {
        Some(62)
    } else if c == '_' || c == '/' {
        Some(63)
    } else {
        None
    }
}

/// The bytes that URL-safe base64 digits stand for: four digits give three
/// bytes, a final three give two, a final two give one; `None` where a
/// character is no digit or one digit is left over.
pub open spec fn b64url_decoded(s: Seq<char>) -> Option<Seq<u8>>
    decreases s.len(),
{
    if s.len() == 0 {
        Some(seq![])
    } else if s.len() == 1 || b64_value(s[0]) is None || b64_value(s[1]) is None || (s.len() >= 3
        && b64_value(s[2]) is None) || (s.len() >= 4 && b64_value(s[3]) is None) {
        None
    } else {
        let (a, b) = (b64_value(s[0])->0, b64_value(s[1])->0);
        let x = (a * 4 + b / 16) as u8;
        if s.len() == 2 {
            Some(seq![x])
        } else {
            let c = b64_value(s[2])->0;
            let y = ((b % 16) * 16 + c / 4) as u8;
            if s.len() == 3 {
                Some(seq![x, y])
            } else {
                let z = ((c % 4) * 64 + b64_value(s[3])->0) as u8;
                match b64url_decoded(s.skip(4)) {
                    Some(rest) => Some(seq![x, y, z] + rest),
                    None => None,
                }
            }
        }
    }
}

fn digit_value(c: char) -> (r: Option<u8>)
    ensures
        match r {
            Some(v) => b64_value(c) == Some(v as int) && v < 64,
            None => b64_value(c) is None,
        },
{
    if 'A' <= c && c <= 'Z' {
        Some((c as u32 - 65) as u8)
    } else if 'a' <= c && c <= 'z' {
        Some((c as u32 - 97 + 26) as u8)
    } else if '0' <= c && c <= '9' {
        Some((c as u32 - 48 + 52) as u8)
    } else if c == '-' || c == '+' {
        Some(62)
    } else if c == '_' || c == '/' {
        Some(63)
    } else {
        None
    }
}

/// Whether `b` is the UTF-8 encoding of some text.
pub open spec fn utf8_bytes(b: Seq<u8>) -> bool {
    exists|t: Seq<char>| encode_utf8(t) == b
}

/// Relies on `String::from_utf8`: it succeeds exactly on valid UTF-8, and the
/// string's UTF-8 encoding is then exactly the given bytes.
#[verifier::external_body]
fn string_from_utf8(b: Vec<u8>) -> (r: Option<String>)
    ensures
        match r {
            Some(s) => encode_utf8(s@) == b@,
            None => !utf8_bytes(b@),
        },
{
    String::from_utf8(b).ok()
}

/// The bytes that URL-safe base64 digits stand for.
pub fn url_safe_base64_decode_bytes(s: &str) -> (r: Option<Vec<u8>>)
    ensures
        match r {
            Some(b) => b64url_decoded(s@) == Some(b@),
            None => b64url_decoded(s@) is None,
        },
{
    let c = chars_of(s);
    let mut out: Vec<u8> = Vec::new();
    let mut i: usize = 0;
    assert(c@.skip(0) =~= c@);
    while i < c.len()
        invariant
            i <= c@.len(),
            c@ == s@,
            b64url_decoded(s@) == match b64url_decoded(c@.skip(i as int)) {
                Some(rest) => Some(out@ + rest),
                None => None::<Seq<u8>>,
            },
        decreases c@.len() - i,
    {
        let ghost t = c@.skip(i as int);
        let left = c.len() - i;
        if left == 1 {
            return None;
        }
        let a = match digit_value(c[i]) {
            Some(v) => v,
            None => return None,
        };
        let b = match digit_value(c[i + 1]) {
            Some(v) => v,
            None => return None,
        };
        let x = a * 4 + b / 16;
        if left == 2 {
            out.push(x);
            proof {
                assert(c@.skip(i + 2) =~= seq![]);
            }
            i += 2;
            assert(out@ =~= out@ + seq![]);
        } else {
            let cc = match digit_value(c[i + 2]) {
                Some(v) => v,
                None => return None,
            };
            let y = (b % 16) * 16 + cc / 4;
            if left == 3 {
                out.push(x);
                out.push(y);
                proof {
                    assert(c@.skip(i + 3) =~= seq![]);
                }
                i += 3;
            } else {
                let d = match digit_value(c[i + 3]) {
                    Some(v) => v,
                    None => return None,
                };
                let z = (cc % 4) * 64 + d;
                let ghost before = out@;
                out.push(x);
                out.push(y);
                out.push(z);
                proof {
                    assert(t.skip(4) =~= c@.skip(i + 4));
                    assert(out@ =~= before + seq![x, y, z]);
                    match b64url_decoded(t.skip(4)) {
                        Some(rest) => {
                            assert(before + (seq![x, y, z] + rest) =~= out@ + rest);
                        },
                        None => {},
                    }
                }
                i += 4;
            }
        }
    }
    Some(out)
}

/// The text that URL-safe base64 digits stand for; `None` where they are
/// malformed or do not stand for UTF-8.
pub fn url_safe_base64_decode(s: &str) -> (r: Option<String>)
    ensures
        match r {
            Some(t) => b64url_decoded(s@) == Some(encode_utf8(t@)),
            None => b64url_decoded(s@) is Some ==> !utf8_bytes(b64url_decoded(s@)->0),
        },
{
    match url_safe_base64_decode_bytes(s) {
        Some(b) => string_from_utf8(b),
        None => None,
    }
}

} // verus!
