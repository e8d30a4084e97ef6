//! Base64 over the 64-character alphabet A-Z a-z 0-9 plus two final
//! characters: the standard alphabet (`+`, `/`, padding `=`) used for image
//! data URLs, and MusicBrainz's variant (`.`, `_`, padding `-`) used for
//! DiscIDs. Also the lenient decoder used to read data URLs back.
use vstd::prelude::*;
use crate::text::push_char;
use vstd::string::StringSliceAdditionalSpecFns;

verus! {

/// Character for a six-bit value: A-Z, a-z, 0-9, then `c62`, `c63`.
pub open spec fn b64_char(v: int, c62: char, c63: char) -> char {
    if v < 26 {
        ((v + 65) as u8) as char
    } else if v < 52 {
        ((v + 71) as u8) as char
    } else if v < 62 {
        ((v - 4) as u8) as char
    } else if v == 62 {
        c62
    } else {
        c63
    }
}

/// The 24-bit group of a chunk of one to three bytes (missing bytes are 0).
pub open spec fn chunk_bits(chunk: Seq<u8>) -> u32 {
    let b0: u32 = chunk[0] as u32;
    let b1: u32 = if chunk.len() > 1 { chunk[1] as u32 } else { 0 };
    let b2: u32 = if chunk.len() > 2 { chunk[2] as u32 } else { 0 };
    (b0 << 16u32) | (b1 << 8u32) | b2
}

/// The characters of one chunk of one to three bytes, without padding:
/// two, three or four characters.
pub open spec fn b64_chunk(chunk: Seq<u8>, c62: char, c63: char) -> Seq<char> {
    let n = chunk_bits(chunk);
    let two = seq![
        b64_char(((n >> 18u32) & 63u32) as int, c62, c63),
        b64_char(((n >> 12u32) & 63u32) as int, c62, c63),
    ];
    let three = if chunk.len() > 1 {
        two.push(b64_char(((n >> 6u32) & 63u32) as int, c62, c63))
    } else {
        two
    };
    if chunk.len() > 2 {
        three.push(b64_char((n & 63u32) as int, c62, c63))
    } else {
        three
    }
}

/// Start of the last chunk of three bytes.
pub open spec fn last_chunk_start(len: nat) -> int {
    ((len - 1) / 3) * 3
}

/// Encoding of `data` in chunks of three bytes, without padding.
pub open spec fn b64_body(data: Seq<u8>, c62: char, c63: char) -> Seq<char>
    decreases data.len(),
{
    if data.len() == 0 {
        seq![]
    } else {
        let k = last_chunk_start(data.len());
        b64_body(data.take(k), c62, c63) + b64_chunk(data.skip(k), c62, c63)
    }
}

/// Padding after the body: two pad characters after a final single byte, one
/// after a final pair.
pub open spec fn b64_padding(len: nat, pad: char) -> Seq<char> {
    if len % 3 == 1 {
        seq![pad, pad]
    } else if len % 3 == 2 {
        seq![pad]
    } else {
        seq![]
    }
}

/// The full encoding with the given final characters and padding character.
pub open spec fn b64_encoding(data: Seq<u8>, c62: char, c63: char, pad: char) -> Seq<char> {
    b64_body(data, c62, c63) + b64_padding(data.len(), pad)
}

/// Standard Base64 (RFC 4648 alphabet, `=` padding).
pub open spec fn std_base64(data: Seq<u8>) -> Seq<char> {
    b64_encoding(data, '+', '/', '=')
}

fn b64_alpha(v: u32, c62: char, c63: char) -> (c: char)
    requires
        v < 64,
    ensures
        c == b64_char(v as int, c62, c63),
{
    if v < 26 {
        ((v + 65) as u8) as char
    } else if v < 52 {
        ((v + 71) as u8) as char
    } else if v < 62 {
        ((v - 4) as u8) as char
    } else if v == 62 {
        c62
    } else {
        c63
    }
}

/// Encodes `data` with final characters `c62`, `c63` and padding `pad`.
pub(crate) fn encode_with(data: &[u8], c62: char, c63: char, pad: char) -> (s: String)
    ensures
        s@ == b64_encoding(data@, c62, c63, pad),
{
    let n = data.len();
    let mut s = String::new();
    let mut i: usize = 0;
    while i < n
        invariant
            n == data@.len(),
            i <= n,
            i % 3 == 0 || i == n,
            s@ == b64_body(data@.take(i as int), c62, c63),
        decreases n - i,
    {
        let end: usize = if n - i >= 3 {
            i + 3
        } else {
            n
        };
        let ghost chunk = data@.subrange(i as int, end as int);
        let b0: u32 = data[i] as u32;
        let b1: u32 = if i + 1 < n {
            data[i + 1] as u32
        } else {
            0
        };
        let b2: u32 = if i + 2 < n {
            data[i + 2] as u32
        } else {
            0
        };
        let v: u32 = (b0 << 16u32) | (b1 << 8u32) | b2;
        assert(v == chunk_bits(chunk));
        assert((v >> 18u32) & 63u32 < 64 && (v >> 12u32) & 63u32 < 64 && (v >> 6u32) & 63u32 < 64
            && v & 63u32 < 64) by (bit_vector);
        let ghost before = s@;
        push_char(&mut s, b64_alpha((v >> 18u32) & 63u32, c62, c63));
        push_char(&mut s, b64_alpha((v >> 12u32) & 63u32, c62, c63));
        if end - i > 1 {
            push_char(&mut s, b64_alpha((v >> 6u32) & 63u32, c62, c63));
        }
        if end - i > 2 {
            push_char(&mut s, b64_alpha(v & 63u32, c62, c63));
        }
        assert(s@ =~= before + b64_chunk(chunk, c62, c63));
        proof {
            let t = data@.take(end as int);
            assert(last_chunk_start(t.len()) == i);
            assert(t.take(i as int) =~= data@.take(i as int));
            assert(t.skip(i as int) =~= chunk);
        }
        i = end;
    }
    assert(data@.take(n as int) =~= data@);
    let r = n % 3;
    if r == 1 {
        push_char(&mut s, pad);
        push_char(&mut s, pad);
    } else if r == 2 {
        push_char(&mut s, pad);
    }
    assert(s@ =~= b64_encoding(data@, c62, c63, pad));
    s
}

/// Standard Base64 encoding (alphabet A-Z a-z 0-9 + /, `=` padding), as
/// used in image data URLs.
pub fn b64(data: &[u8]) -> (s: String)
    ensures
        s@ == std_base64(data@),
{
    encode_with(data, '+', '/', '=')
}


/// Value of a Base64 character byte (standard alphabet), or -1 for any other
/// byte.
pub open spec fn b64_value(c: u8) -> int {
    if 65 <= c <= 90 {
        c - 65
    } else if 97 <= c <= 122 {
        c - 71
    } else if 48 <= c <= 57 {
        c + 4
    } else if c == 43 {
        62
    } else if c == 47 {
        63
    } else {
        -1
    }
}

/// Decoder state: bit buffer, number of pending bits, bytes decoded so far.
pub type DecodeState = (u32, u32, Seq<u8>);

/// One input byte: bytes outside the alphabet are skipped; each character
/// adds six bits, and a byte is emitted whenever eight are pending.
pub open spec fn decode_step(st: DecodeState, c: u8) -> DecodeState {
    let v = b64_value(c);
    if v < 0 {
        st
    } else {
        let buf: u32 = (st.0 << 6u32) | (v as u32);
        let bits: int = st.1 + 6;
        if bits >= 8 {
            (buf, (bits - 8) as u32, st.2.push((buf >> ((bits - 8) as u32)) as u8))
        } else {
            (buf, bits as u32, st.2)
        }
    }
}

/// Runs the decoder over `s` from `st`, stopping at the first `=`.
pub open spec fn decode_from(st: DecodeState, s: Seq<u8>) -> DecodeState
    decreases s.len(),
{
    if s.len() == 0 || s[0] == 61 {
        st
    } else {
        decode_from(decode_step(st, s[0]), s.drop_first())
    }
}

/// The bytes the lenient decoder yields for the bytes `s`.
pub open spec fn base64_decoded(s: Seq<u8>) -> Seq<u8> {
    decode_from((0u32, 0u32, seq![]), s).2
}

fn b64_rev(c: u8) -> (v: i8)
    ensures
        v == b64_value(c),
{
    if 65 <= c && c <= 90 {
        (c - 65) as i8
    } else if 97 <= c && c <= 122 {
        (c - 71) as i8
    } else if 48 <= c && c <= 57 {
        (c + 4) as i8
    } else if c == 43 {
        62
    } else if c == 47 {
        63
    } else {
        -1
    }
}

/// Lenient decoding of the bytes from position `start` on.
pub fn decode_bytes_from(bytes: &[u8], start: usize) -> (out: Vec<u8>)
    requires
        start <= bytes@.len(),
    ensures
        out@ == base64_decoded(bytes@.skip(start as int)),
{
    let ghost src = bytes@.skip(start as int);
    let n = bytes.len();
    let mut out: Vec<u8> = Vec::new();
    let mut buf: u32 = 0;
    let mut bits: u32 = 0;
    let mut i: usize = start;
    assert(bytes@.skip(i as int) =~= src);
    while i < n
        invariant_except_break
            n == bytes@.len(),
            start <= i <= n,
            bits < 8,
            decode_from((buf, bits, out@), bytes@.skip(i as int)) == decode_from(
                (0u32, 0u32, seq![]),
                src,
            ),
        ensures
            decode_from((buf, bits, out@), seq![]) == decode_from((0u32, 0u32, seq![]), src)
                || decode_from((buf, bits, out@), seq![61u8]) == decode_from(
                (0u32, 0u32, seq![]),
                src,
            ),
        decreases n - i,
    {
        let c = bytes[i];
        let ghost rest = bytes@.skip(i as int);
        assert(rest[0] == c);
        if c == 61 {
            assert(decode_from((buf, bits, out@), rest) == (buf, bits, out@));
            break;
        }
        assert(rest.drop_first() =~= bytes@.skip(i + 1));
        let v = b64_rev(c);
        if v >= 0 {
            buf = (buf << 6u32) | (v as u32);
            bits = bits + 6;
            if bits >= 8 {
                bits = bits - 8;
                out.push((buf >> bits) as u8);
            }
        }
        i = i + 1;
    }
    out
}

/// Lenient standard Base64 decoding, as used for data URLs: bytes outside the
/// alphabet are skipped and decoding stops at the first `=`. Always `Some`.
pub fn base64_decode(s: &str) -> (r: Option<Vec<u8>>)
    ensures
        r matches Some(out) && out@ == base64_decoded(s.spec_bytes()),
{
    let bytes = s.as_bytes();
    assert(bytes@.skip(0) =~= bytes@);
    Some(decode_bytes_from(bytes, 0))
}

/// Bytes of a character sequence whose characters are all ASCII.
pub open spec fn ascii_bytes(cs: Seq<char>) -> Seq<u8> {
    Seq::new(cs.len(), |i: int| cs[i] as u8)
}

proof fn lemma_decode_concat(st: DecodeState, a: Seq<u8>, b: Seq<u8>)
    requires
        forall|i: int| 0 <= i < a.len() ==> a[i] != 61,
    ensures
        decode_from(st, a + b) == decode_from(decode_from(st, a), b),
    decreases a.len(),
{
    if a.len() > 0 {
        assert((a + b)[0] == a[0]);
        assert((a + b).drop_first() =~= a.drop_first() + b);
        lemma_decode_concat(decode_step(st, a[0]), a.drop_first(), b);
    } else {
        assert(a + b =~= b);
    }
}

proof fn lemma_char_value(v: int)
    requires
        0 <= v < 64,
    ensures
        b64_value(b64_char(v, '+', '/') as u8) == v,
        b64_char(v, '+', '/') as u8 != 61,
        '\0' <= b64_char(v, '+', '/') <= '\u{7f}',
{
}

/// Decoding the three or four characters of a chunk after whole chunks.
proof fn lemma_decode_chunk(buf: u32, out: Seq<u8>, chunk: Seq<u8>)
    requires
        1 <= chunk.len() <= 3,
    ensures
        decode_from((buf, 0u32, out), ascii_bytes(b64_chunk(chunk, '+', '/'))).2 == out + chunk,
        chunk.len() == 3 ==> decode_from(
            (buf, 0u32, out),
            ascii_bytes(b64_chunk(chunk, '+', '/')),
        ).1 == 0,
{
    let n = chunk_bits(chunk);
    let b0: u32 = chunk[0] as u32;
    let b1: u32 = if chunk.len() > 1 { chunk[1] as u32 } else { 0 };
    let b2: u32 = if chunk.len() > 2 { chunk[2] as u32 } else { 0 };
    let v1: u32 = (n >> 18u32) & 63u32;
    let v2: u32 = (n >> 12u32) & 63u32;
    let v3: u32 = (n >> 6u32) & 63u32;
    let v4: u32 = n & 63u32;
    assert(n == (b0 << 16u32) | (b1 << 8u32) | b2);
    assert(v1 < 64 && v2 < 64 && v3 < 64 && v4 < 64) by (bit_vector)
        requires
            v1 == (n >> 18u32) & 63u32,
            v2 == (n >> 12u32) & 63u32,
            v3 == (n >> 6u32) & 63u32,
            v4 == n & 63u32,
    ;
    lemma_char_value(v1 as int);
    lemma_char_value(v2 as int);
    lemma_char_value(v3 as int);
    lemma_char_value(v4 as int);
    let buf1: u32 = (buf << 6u32) | v1;
    let buf2: u32 = (buf1 << 6u32) | v2;
    let buf3: u32 = (buf2 << 6u32) | v3;
    let buf4: u32 = (buf3 << 6u32) | v4;
    assert(b0 < 256 && b1 < 256 && b2 < 256);
    assert((buf2 >> 4u32) as u8 == b0 as u8 && (buf3 >> 2u32) as u8 == b1 as u8 && (buf4
        >> 0u32) as u8 == b2 as u8) by (bit_vector)
        requires
            b0 < 256,
            b1 < 256,
            b2 < 256,
            n == (b0 << 16u32) | (b1 << 8u32) | b2,
            v1 == (n >> 18u32) & 63u32,
            v2 == (n >> 12u32) & 63u32,
            v3 == (n >> 6u32) & 63u32,
            v4 == n & 63u32,
            buf1 == (buf << 6u32) | v1,
            buf2 == (buf1 << 6u32) | v2,
            buf3 == (buf2 << 6u32) | v3,
            buf4 == (buf3 << 6u32) | v4,
    ;
    let cs = b64_chunk(chunk, '+', '/');
    let bs = ascii_bytes(cs);
    let s0: DecodeState = (buf, 0u32, out);
    let s1 = decode_step(s0, bs[0]);
    let s2 = decode_step(s1, bs[1]);
    assert(s1 == (buf1, 6u32, out));
    assert(s2 == (buf2, 4u32, out.push(b0 as u8)));
    assert(bs[0] != 61 && bs[1] != 61);
    assert(bs.drop_first() =~= bs.skip(1));
    assert(decode_from(s0, bs) == decode_from(s1, bs.skip(1)));
    assert(bs.skip(1)[0] == bs[1]);
    assert(bs.skip(1).drop_first() =~= bs.skip(2));
    assert(decode_from(s1, bs.skip(1)) == decode_from(s2, bs.skip(2)));
    if chunk.len() == 1 {
        assert(bs.skip(2).len() == 0);
        assert(out.push(b0 as u8) =~= out + chunk);
    } else {
        let s3 = decode_step(s2, bs[2]);
        assert(s3 == (buf3, 2u32, out.push(b0 as u8).push(b1 as u8)));
        assert(bs[2] != 61);
        assert(bs.skip(2)[0] == bs[2]);
        assert(bs.skip(2).drop_first() =~= bs.skip(3));
        assert(decode_from(s2, bs.skip(2)) == decode_from(s3, bs.skip(3)));
        if chunk.len() == 2 {
            assert(bs.skip(3).len() == 0);
            assert(out.push(b0 as u8).push(b1 as u8) =~= out + chunk);
        } else {
            let s4 = decode_step(s3, bs[3]);
            assert(s4 == (buf4, 0u32, out.push(b0 as u8).push(b1 as u8).push(b2 as u8)));
            assert(bs[3] != 61);
            assert(bs.skip(3)[0] == bs[3]);
            assert(bs.skip(3).drop_first() =~= bs.skip(4));
            assert(decode_from(s3, bs.skip(3)) == decode_from(s4, bs.skip(4)));
            assert(bs.skip(4).len() == 0);
            assert(out.push(b0 as u8).push(b1 as u8).push(b2 as u8) =~= out + chunk);
        }
    }
}

proof fn lemma_chunk_chars(chunk: Seq<u8>)
    requires
        1 <= chunk.len() <= 3,
    ensures
        forall|i: int|
            0 <= i < b64_chunk(chunk, '+', '/').len() ==> {
                let c = #[trigger] b64_chunk(chunk, '+', '/')[i];
                &&& c as u8 != 61
                &&& '\0' <= c <= '\u{7f}'
            },
{
    let n = chunk_bits(chunk);
    let v1: u32 = (n >> 18u32) & 63u32;
    let v2: u32 = (n >> 12u32) & 63u32;
    let v3: u32 = (n >> 6u32) & 63u32;
    let v4: u32 = n & 63u32;
    assert(v1 < 64 && v2 < 64 && v3 < 64 && v4 < 64) by (bit_vector)
        requires
            v1 == (n >> 18u32) & 63u32,
            v2 == (n >> 12u32) & 63u32,
            v3 == (n >> 6u32) & 63u32,
            v4 == n & 63u32,
    ;
    lemma_char_value(v1 as int);
    lemma_char_value(v2 as int);
    lemma_char_value(v3 as int);
    lemma_char_value(v4 as int);
}

proof fn lemma_body_chars(data: Seq<u8>)
    ensures
        forall|i: int|
            0 <= i < b64_body(data, '+', '/').len() ==> {
                let c = #[trigger] b64_body(data, '+', '/')[i];
                &&& c as u8 != 61
                &&& '\0' <= c <= '\u{7f}'
            },
    decreases data.len(),
{
    if data.len() > 0 {
        let k = last_chunk_start(data.len());
        lemma_body_chars(data.take(k));
        lemma_chunk_chars(data.skip(k));
        let a = b64_body(data.take(k), '+', '/');
        let b = b64_chunk(data.skip(k), '+', '/');
        assert forall|i: int| 0 <= i < (a + b).len() implies {
            let c = #[trigger] (a + b)[i];
            &&& c as u8 != 61
            &&& '\0' <= c <= '\u{7f}'
        } by {
            if i < a.len() {
                assert((a + b)[i] == a[i]);
            } else {
                assert((a + b)[i] == b[i - a.len()]);
            }
        }
    }
}

proof fn lemma_decode_body(buf: u32, out: Seq<u8>, data: Seq<u8>)
    ensures
        decode_from((buf, 0u32, out), ascii_bytes(b64_body(data, '+', '/'))).2 == out + data,
        data.len() % 3 == 0 ==> decode_from(
            (buf, 0u32, out),
            ascii_bytes(b64_body(data, '+', '/')),
        ).1 == 0,
    decreases data.len(),
{
    if data.len() == 0 {
        assert(ascii_bytes(b64_body(data, '+', '/')).len() == 0);
        assert(out + data =~= out);
    } else {
        let k = last_chunk_start(data.len());
        let head = data.take(k);
        let tail = data.skip(k);
        lemma_decode_body(buf, out, head);
        lemma_body_chars(head);
        let a = ascii_bytes(b64_body(head, '+', '/'));
        let b = ascii_bytes(b64_chunk(tail, '+', '/'));
        assert(ascii_bytes(b64_body(data, '+', '/')) =~= a + b);
        assert forall|i: int| 0 <= i < a.len() implies a[i] != 61 by {
            let c = b64_body(head, '+', '/')[i];
        }
        lemma_decode_concat((buf, 0u32, out), a, b);
        let mid = decode_from((buf, 0u32, out), a);
        assert(head.len() % 3 == 0);
        lemma_decode_chunk(mid.0, out + head, tail);
        assert(mid == (mid.0, 0u32, out + head));
        assert(out + head + tail =~= out + data);
    }
}

/// Decoding undoes standard encoding: for every byte string, decoding the
/// bytes of its Base64 text gives the byte string back.
pub proof fn law_base64_roundtrip(data: Seq<u8>)
    ensures
        vstd::utf8::is_ascii_chars(std_base64(data)),
        base64_decoded(vstd::utf8::encode_utf8(std_base64(data))) == data,
{
    let body = b64_body(data, '+', '/');
    let pad = b64_padding(data.len(), '=');
    let enc = std_base64(data);
    lemma_body_chars(data);
    assert(enc =~= body + pad);
    assert(vstd::utf8::is_ascii_chars(enc)) by {
        assert forall|i: int| 0 <= i < enc.len() implies '\0' <= #[trigger] enc[i] <= '\u{7f}' by {
            if i < body.len() {
                assert(enc[i] == body[i]);
            } else {
                assert(enc[i] == '=');
            }
        }
    }
    vstd::utf8::is_ascii_chars_encode_utf8(enc);
    let bytes = vstd::utf8::encode_utf8(enc);
    assert(bytes =~= ascii_bytes(body) + ascii_bytes(pad));
    assert forall|i: int| 0 <= i < ascii_bytes(body).len() implies ascii_bytes(body)[i] != 61 by {
        let c = body[i];
    }
    lemma_decode_concat((0u32, 0u32, seq![]), ascii_bytes(body), ascii_bytes(pad));
    lemma_decode_body(0u32, seq![], data);
    assert(seq![] + data =~= data);
}

/// The character of the MusicBrainz alphabet that stands where standard
/// Base64 has `c`: `+`, `/` and `=` become `.`, `_` and `-`.
pub open spec fn mb_char(c: char) -> char {
    if c == '+' {
        '.'
    } else if c == '/' {
        '_'
    } else if c == '=' {
        '-'
    } else {
        c
    }
}

proof fn lemma_char_mapped(v: int)
    requires
        0 <= v < 64,
    ensures
        mb_char(b64_char(v, '+', '/')) == b64_char(v, '.', '_'),
{
}

proof fn lemma_chunk_mapped(chunk: Seq<u8>)
    requires
        1 <= chunk.len() <= 3,
    ensures
        b64_chunk(chunk, '+', '/').len() == b64_chunk(chunk, '.', '_').len(),
        forall|i: int|
            0 <= i < b64_chunk(chunk, '+', '/').len() ==> mb_char(
                #[trigger] b64_chunk(chunk, '+', '/')[i],
            ) == b64_chunk(chunk, '.', '_')[i],
{
    let n = chunk_bits(chunk);
    let v1: u32 = (n >> 18u32) & 63u32;
    let v2: u32 = (n >> 12u32) & 63u32;
    let v3: u32 = (n >> 6u32) & 63u32;
    let v4: u32 = n & 63u32;
    assert(v1 < 64 && v2 < 64 && v3 < 64 && v4 < 64) by (bit_vector)
        requires
            v1 == (n >> 18u32) & 63u32,
            v2 == (n >> 12u32) & 63u32,
            v3 == (n >> 6u32) & 63u32,
            v4 == n & 63u32,
    ;
    lemma_char_mapped(v1 as int);
    lemma_char_mapped(v2 as int);
    lemma_char_mapped(v3 as int);
    lemma_char_mapped(v4 as int);
}

proof fn lemma_body_mapped(data: Seq<u8>)
    ensures
        b64_body(data, '+', '/').len() == b64_body(data, '.', '_').len(),
        forall|i: int|
            0 <= i < b64_body(data, '+', '/').len() ==> mb_char(
                #[trigger] b64_body(data, '+', '/')[i],
            ) == b64_body(data, '.', '_')[i],
    decreases data.len(),
{
    if data.len() > 0 {
        let k = last_chunk_start(data.len());
        lemma_body_mapped(data.take(k));
        lemma_chunk_mapped(data.skip(k));
        let a = b64_body(data.take(k), '+', '/');
        let b = b64_chunk(data.skip(k), '+', '/');
        let a2 = b64_body(data.take(k), '.', '_');
        let b2 = b64_chunk(data.skip(k), '.', '_');
        assert forall|i: int| 0 <= i < (a + b).len() implies mb_char(#[trigger] (a + b)[i]) == (a2
            + b2)[i] by {
            if i < a.len() {
                assert((a + b)[i] == a[i]);
                assert((a2 + b2)[i] == a2[i]);
            } else {
                assert((a + b)[i] == b[i - a.len()]);
                assert((a2 + b2)[i] == b2[i - a.len()]);
            }
        }
    }
}

/// Each character of the MusicBrainz encoding is the standard encoding's
/// character at the same place, with `+`, `/`, `=` turned into `.`, `_`, `-`.
pub proof fn lemma_encoding_mapped(data: Seq<u8>)
    ensures
        std_base64(data).len() == b64_encoding(data, '.', '_', '-').len(),
        forall|i: int|
            0 <= i < std_base64(data).len() ==> mb_char(#[trigger] std_base64(data)[i])
                == b64_encoding(data, '.', '_', '-')[i],
{
    lemma_body_mapped(data);
    let a = b64_body(data, '+', '/');
    let b = b64_padding(data.len(), '=');
    let a2 = b64_body(data, '.', '_');
    let b2 = b64_padding(data.len(), '-');
    assert forall|i: int| 0 <= i < (a + b).len() implies mb_char(#[trigger] (a + b)[i]) == (a2
        + b2)[i] by {
        if i < a.len() {
            assert((a + b)[i] == a[i]);
            assert((a2 + b2)[i] == a2[i]);
        } else {
            assert((a + b)[i] == b[i - a.len()]);
            assert((a2 + b2)[i] == b2[i - a.len()]);
        }
    }
}

/// Every standard encoding is four characters per started group of three
/// bytes.
pub proof fn law_base64_length(data: Seq<u8>, c62: char, c63: char, pad: char)
    ensures
        b64_encoding(data, c62, c63, pad).len() == 4 * ((data.len() + 2) / 3),
{
    lemma_body_len(data, c62, c63);
}

proof fn lemma_body_len(data: Seq<u8>, c62: char, c63: char)
    ensures
        b64_body(data, c62, c63).len() == 4 * (data.len() / 3) + (if data.len() % 3 == 0 {
            0
        } else {
            data.len() % 3 + 1
        }),
    decreases data.len(),
{
    if data.len() > 0 {
        let k = last_chunk_start(data.len());
        lemma_body_len(data.take(k), c62, c63);
    }
}

} // verus!
