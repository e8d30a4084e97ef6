//! Query-string encoding: every UTF-8 byte outside the unreserved set
//! (A-Z a-z 0-9 - _ . ~) becomes `%XX` with upper-case hex digits.
use vstd::prelude::*;
use crate::text;
use crate::text::push_char;
use vstd::string::StringSliceAdditionalSpecFns;

verus! {

/// Bytes left as they are.
pub open spec fn unreserved(b: u8) -> bool {
    (65 <= b <= 90) || (97 <= b <= 122) || (48 <= b <= 57) || b == 45 || b == 95 || b == 46
        || b == 126
}

/// The encoding of one byte.
pub open spec fn pct_byte(b: u8) -> Seq<char> {
    if unreserved(b) {
        seq![b as char]
    } else {
        seq!['%', text::hex_digit_char((b / 16) as int), text::hex_digit_char((b % 16) as int)]
    }
}

/// The encoding of a byte string.
pub open spec fn pct_encoded(bs: Seq<u8>) -> Seq<char>
    decreases bs.len(),
{
    if bs.len() == 0 {
        seq![]
    } else {
        pct_encoded(bs.drop_last()) + pct_byte(bs.last())
    }
}

/// The encoding of the UTF-8 bytes of a text.
pub open spec fn urlencoded(s: Seq<char>) -> Seq<char> {
    pct_encoded(vstd::utf8::encode_utf8(s))
}

fn hex_char(d: u8) -> (c: char)
    requires
        d < 16,
    ensures
        c == text::hex_digit_char(d as int),
{
    if d < 10 {
        (d + 48) as char
    } else {
        (d + 55) as char
    }
}

/// Appends the encoding of the UTF-8 bytes of `s`.
pub(crate) fn push_urlencoded(out: &mut String, s: &str)
    ensures
        final(out)@ == old(out)@ + urlencoded(s@),
{
    let bytes = s.as_bytes();
    let n = bytes.len();
    let mut i: usize = 0;
    while i < n
        invariant
            n == bytes@.len(),
            bytes@ == vstd::utf8::encode_utf8(s@),
            i <= n,
            out@ == old(out)@ + pct_encoded(bytes@.take(i as int)),
        decreases n - i,
    {
        let b = bytes[i];
        let keep = (65 <= b && b <= 90) || (97 <= b && b <= 122) || (48 <= b && b <= 57) || b == 45
            || b == 95 || b == 46 || b == 126;
        if keep {
            push_char(out, b as char);
        } else {
            push_char(out, '%');
            push_char(out, hex_char(b / 16));
            push_char(out, hex_char(b % 16));
        }
        assert(bytes@.take(i + 1).drop_last() =~= bytes@.take(i as int));
        assert(out@ =~= old(out)@ + pct_encoded(bytes@.take(i + 1)));
        i = i + 1;
    }
    assert(bytes@.take(n as int) =~= bytes@);
}

/// Percent-encoding of a query value.
pub fn urlencode(s: &str) -> (r: String)
    ensures
        r@ == urlencoded(s@),
{
    let mut r = String::new();
    push_urlencoded(&mut r, s);
    assert(r@ =~= urlencoded(s@));
    r
}

/// Every character of an encoding is an unreserved byte, `%` or an
/// upper-case hexadecimal digit, so the encoding is ASCII.
pub proof fn law_urlencoded_ascii(bs: Seq<u8>)
    ensures
        forall|i: int|
            0 <= i < pct_encoded(bs).len() ==> {
                let c = #[trigger] pct_encoded(bs)[i];
                unreserved(c as u8) || c == '%'
            },
        vstd::utf8::is_ascii_chars(pct_encoded(bs)),
    decreases bs.len(),
{
    if bs.len() > 0 {
        law_urlencoded_ascii(bs.drop_last());
        let a = pct_encoded(bs.drop_last());
        let b = pct_byte(bs.last());
        assert(pct_encoded(bs) == a + b);
        assert forall|i: int| 0 <= i < (a + b).len() implies {
            let c = #[trigger] (a + b)[i];
            &&& (unreserved(c as u8) || c == '%')
            &&& '\0' <= c <= '\u{7f}'
        } by {
            if i >= a.len() {
                assert((a + b)[i] == b[i - a.len()]);
            } else {
                assert((a + b)[i] == a[i]);
            }
        }
    }
}

/// Text made only of unreserved characters is left as it is.
pub proof fn law_urlencode_unreserved(bs: Seq<u8>)
    requires
        forall|i: int| 0 <= i < bs.len() ==> unreserved(#[trigger] bs[i]),
    ensures
        pct_encoded(bs) == Seq::new(bs.len(), |i: int| bs[i] as char),
    decreases bs.len(),
{
    if bs.len() > 0 {
        law_urlencode_unreserved(bs.drop_last());
        assert(pct_encoded(bs) =~= Seq::new(bs.len(), |i: int| bs[i] as char));
    } else {
        assert(pct_encoded(bs) =~= Seq::new(bs.len(), |i: int| bs[i] as char));
    }
}

} // verus!
