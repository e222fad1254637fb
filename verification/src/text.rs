//! Numbers as decimal text, and the order of texts.

use vstd::prelude::*;

verus! {

/// The characters whose codes are the bytes of `bytes`.
pub open spec fn chars_of(bytes: Seq<u8>) -> Seq<char> {
    Seq::new(bytes.len(), |i: int| bytes[i] as char)
}

/// The decimal digits of `n`, most significant first, as ASCII bytes.
pub open spec fn digits(n: nat) -> Seq<u8>
    decreases n,
{
    if n < 10 {
        seq![(48 + n) as u8]
    } else {
        digits(n / 10).push((48 + n % 10) as u8)
    }
}

/// `n` in decimal notation, with a minus sign if it is negative.
pub open spec fn decimal(n: int) -> Seq<u8> {
    if n < 0 {
        seq![45u8] + digits((-n) as nat)
    } else {
        digits(n as nat)
    }
}

/// An ASCII digit.
pub open spec fn is_digit(b: u8) -> bool {
    48 <= b <= 57
}

/// Every byte of `s` is an ASCII digit.
pub open spec fn all_digits(s: Seq<u8>) -> bool {
    forall|i: int| 0 <= i < s.len() ==> is_digit(#[trigger] s[i])
}

/// The number that the digits `s` spell in decimal notation.
pub open spec fn digits_value(s: Seq<u8>) -> nat
    decreases s.len(),
{
    if s.len() == 0 {
        0
    } else {
        (digits_value(s.drop_last()) * 10 + (s.last() - 48)) as nat
    }
}

/// `s` without its sign, if it begins with one.
pub open spec fn unsigned_part(s: Seq<u8>) -> Seq<u8> {
    if s.len() > 0 && (s[0] == 45 || s[0] == 43) {
        s.subrange(1, s.len() as int)
    } else {
        s
    }
}

/// The integer that `s` spells: an optional sign and at least one digit,
/// nothing else, and a value that fits in 64 bits with a sign.
pub open spec fn int_of(s: Seq<u8>) -> Option<i64> {
    let body = unsigned_part(s);
    let value = if s.len() > 0 && s[0] == 45 {
        -(digits_value(body) as int)
    } else {
        digits_value(body) as int
    };
    if body.len() > 0 && all_digits(body) && i64::MIN <= value <= i64::MAX {
        Some(value as i64)
    } else {
        None
    }
}

/// `a` comes before `b` in the order of a dictionary, byte by byte.
pub open spec fn lex_less(a: Seq<u8>, b: Seq<u8>) -> bool
    decreases a.len(),
{
    if b.len() == 0 {
        false
    } else if a.len() == 0 {
        true
    } else if a[0] != b[0] {
        a[0] < b[0]
    } else {
        lex_less(a.drop_first(), b.drop_first())
    }
}

/// `String::from_utf8` on bytes below 128. Such bytes are valid UTF-8, and
/// each stands for the character with its code, so the call succeeds with
/// those characters.
#[verifier::external_body]
pub(crate) fn ascii_string(bytes: Vec<u8>) -> (text: String)
    requires
        forall|i: int| 0 <= i < bytes@.len() ==> bytes@[i] < 128,
    ensures
        text@ == chars_of(bytes@),
{
    String::from_utf8(bytes).unwrap_or_default()
}

/// The digits of a number are ASCII digits.
pub proof fn lemma_digits_ascii(n: nat)
    ensures
        digits(n).len() > 0,
        all_digits(digits(n)),
    decreases n,
{
    if n >= 10 {
        lemma_digits_ascii(n / 10);
    }
}

fn push_digits(n: u64, out: &mut Vec<u8>)
    ensures
        final(out)@ == old(out)@ + digits(n as nat),
    decreases n,
{
    if n >= 10 {
        push_digits(n / 10, out);
    }
    let digit: u8 = (48 + n % 10) as u8;
    out.push(digit);
    proof {
        if n >= 10 {
            assert(final(out)@ =~= old(out)@ + digits(n as nat));
        } else {
            assert(final(out)@ =~= old(out)@ + digits(n as nat));
        }
    }
}

/// `n` in decimal notation.
pub fn format_unsigned(n: u64) -> (text: String)
    ensures
        text@ == chars_of(decimal(n as int)),
{
    let mut out: Vec<u8> = Vec::new();
    push_digits(n, &mut out);
    proof {
        lemma_digits_ascii(n as nat);
        assert(out@ =~= digits(n as nat));
    }
    ascii_string(out)
}

/// `n` in decimal notation, with a minus sign if it is negative.
pub fn format_signed(n: i64) -> (text: String)
    ensures
        text@ == chars_of(decimal(n as int)),
{
    let mut out: Vec<u8> = Vec::new();
    let wide: i128 = n as i128;
    let magnitude: u64 = if n < 0 {
        out.push(45);
        (-wide) as u64
    } else {
        n as u64
    };
    let ghost sign = out@;
    push_digits(magnitude, &mut out);
    proof {
        lemma_digits_ascii(magnitude as nat);
        assert(out@ =~= decimal(n as int));
        assert forall|i: int| 0 <= i < out@.len() implies out@[i] < 128 by {
            if i >= sign.len() {
                assert(is_digit(digits(magnitude as nat)[i - sign.len()]));
            }
        }
    }
    ascii_string(out)
}

/// Reads an integer in decimal notation: an optional sign, then digits only.
pub fn parse_signed(text: &[u8]) -> (value: Option<i64>)
    ensures
        value == int_of(text@),
{
    let negative = text.len() > 0 && text[0] == 45;
    let start: usize = if text.len() > 0 && (text[0] == 45 || text[0] == 43) {
        1
    } else {
        0
    };
    if start == text.len() {
        return None;
    }
    let ghost body = unsigned_part(text@);
    proof {
        assert(body =~= text@.subrange(start as int, text@.len() as int));
        assert(body.subrange(0, 0) =~= Seq::<u8>::empty());
    }
    let limit: u128 = 0x8000_0000_0000_0001;
    let mut total: u128 = 0;
    let mut i: usize = start;
    while i < text.len()
        invariant
            start <= i <= text@.len(),
            body == text@.subrange(start as int, text@.len() as int),
            body == unsigned_part(text@),
            limit == 0x8000_0000_0000_0001,
            all_digits(body.subrange(0, i - start)),
            total == (if digits_value(body.subrange(0, i - start)) < limit {
                digits_value(body.subrange(0, i - start))
            } else {
                limit as nat
            }),
        decreases text@.len() - i,
    {
        let b = text[i];
        if b < 48 || b > 57 {
            proof {
                assert(body[i - start] == b);
                assert(!is_digit(body[i - start]));
            }
            return None;
        }
        proof {
            let prefix = body.subrange(0, i - start + 1);
            assert(prefix.drop_last() =~= body.subrange(0, i - start));
            assert(prefix.last() == b);
            assert forall|j: int| 0 <= j < prefix.len() implies is_digit(#[trigger] prefix[j]) by {
                if j < i - start {
                    assert(body.subrange(0, i - start)[j] == prefix[j]);
                }
            }
        }
        let next: u128 = total * 10 + (b - 48) as u128;
        total = if next < limit {
            next
        } else {
            limit
        };
        i += 1;
    }
    proof {
        assert(body.subrange(0, i - start) =~= body);
    }
    if negative {
        if total <= 0x8000_0000_0000_0000 {
            let wide: i128 = -(total as i128);
            Some(wide as i64)
        } else {
            None
        }
    } else {
        if total <= 0x7fff_ffff_ffff_ffff {
            Some(total as i64)
        } else {
            None
        }
    }
}

/// Whether `a` comes before `b` in the order of a dictionary, byte by byte.
pub fn bytes_less(a: &[u8], b: &[u8]) -> (less: bool)
    ensures
        less == lex_less(a@, b@),
{
    let mut i: usize = 0;
    proof {
        assert(a@.skip(0) =~= a@);
        assert(b@.skip(0) =~= b@);
    }
    while i < a.len() && i < b.len() && a[i] == b[i]
        invariant
            i <= a@.len(),
            i <= b@.len(),
            lex_less(a@, b@) == lex_less(a@.skip(i as int), b@.skip(i as int)),
        decreases a@.len() - i,
    {
        proof {
            assert(a@.skip(i as int).drop_first() =~= a@.skip(i + 1));
            assert(b@.skip(i as int).drop_first() =~= b@.skip(i + 1));
            assert(a@.skip(i as int)[0] == a@[i as int]);
            assert(b@.skip(i as int)[0] == b@[i as int]);
        }
        i += 1;
    }
    proof {
        if i < a@.len() {
            assert(a@.skip(i as int)[0] == a@[i as int]);
        }
        if i < b@.len() {
            assert(b@.skip(i as int)[0] == b@[i as int]);
        }
    }
    if i >= b.len() {
        false
    } else if i >= a.len() {
        true
    } else {
        a[i] < b[i]
    }
}

} // verus!
