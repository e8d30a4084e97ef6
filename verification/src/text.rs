//! Character-level building blocks: growing strings, decimal and hexadecimal
//! numerals, whitespace trimming and small searches over character sequences.
use vstd::prelude::*;

verus! {

/// Appends one character to a string (`String::push`).
/// Claimed: the string afterwards is the old one followed by `c`.
#[verifier::external_body]
pub(crate) fn push_char(s: &mut String, c: char)
    ensures
        final(s)@ == old(s)@.push(c),
{
    s.push(c);
}

/// The Unicode `White_Space` property (PropList.txt), which
/// `char::is_whitespace` tests: U+0009..U+000D, U+0020, U+0085, U+00A0,
/// U+1680, U+2000..U+200A, U+2028, U+2029, U+202F, U+205F and U+3000.
pub open spec fn char_is_whitespace(c: char) -> bool {
    let v = c as u32;
    ||| 0x09 <= v <= 0x0d
    ||| v == 0x20
    ||| v == 0x85
    ||| v == 0xa0
    ||| v == 0x1680
    ||| 0x2000 <= v <= 0x200a
    ||| v == 0x2028
    ||| v == 0x2029
    ||| v == 0x202f
    ||| v == 0x205f
    ||| v == 0x3000
}

/// Whether a character has the Unicode `White_Space` property (what
/// `char::is_whitespace` answers).
pub fn is_whitespace(c: char) -> (r: bool)
    ensures
        r == char_is_whitespace(c),
{
    let v = c as u32;
    (0x09 <= v && v <= 0x0d) || v == 0x20 || v == 0x85 || v == 0xa0 || v == 0x1680 || (0x2000 <= v
        && v <= 0x200a) || v == 0x2028 || v == 0x2029 || v == 0x202f || v == 0x205f || v == 0x3000
}

/// The ASCII character for a decimal digit.
pub open spec fn digit_char(d: int) -> char {
    ((d + 48) as u8) as char
}

/// The decimal numeral of `n`, without sign or leading zeros.
pub open spec fn dec_chars(n: nat) -> Seq<char>
    decreases n,
{
    if n < 10 {
        seq![digit_char(n as int)]
    } else {
        dec_chars(n / 10).push(digit_char((n % 10) as int))
    }
}

/// An upper-case hexadecimal digit.
pub open spec fn hex_digit_char(d: int) -> char {
    if d < 10 {
        ((d + 48) as u8) as char
    } else {
        ((d + 55) as u8) as char
    }
}

/// The lowest `w` hexadecimal digits of `v`, most significant first,
/// padded with zeros: what `{:0wX}` prints for a value below `16^w`.
pub open spec fn hex_fixed(v: nat, w: nat) -> Seq<char>
    decreases w,
{
    if w == 0 {
        seq![]
    } else {
        hex_fixed(v / 16, (w - 1) as nat).push(hex_digit_char((v % 16) as int))
    }
}

pub proof fn lemma_dec_chars_nonempty(n: nat)
    ensures
        dec_chars(n).len() >= 1,
    decreases n,
{
    if n >= 10 {
        lemma_dec_chars_nonempty(n / 10);
    }
}

pub proof fn lemma_hex_fixed_len(v: nat, w: nat)
    ensures
        hex_fixed(v, w).len() == w,
    decreases w,
{
    if w > 0 {
        lemma_hex_fixed_len(v / 16, (w - 1) as nat);
    }
}

/// Appends the decimal numeral of `n`.
pub(crate) fn push_decimal(s: &mut String, n: u64)
    ensures
        final(s)@ == old(s)@ + dec_chars(n as nat),
    decreases n,
{
    if n >= 10 {
        push_decimal(s, n / 10);
    }
    let d: u8 = (n % 10) as u8;
    push_char(s, (d + 48) as char);
    assert(s@ =~= old(s)@ + dec_chars(n as nat));
}

/// Appends `w` upper-case hexadecimal digits of `v`.
pub(crate) fn push_hex(s: &mut String, v: u64, w: u32)
    ensures
        final(s)@ == old(s)@ + hex_fixed(v as nat, w as nat),
    decreases w,
{
    if w > 0 {
        push_hex(s, v / 16, w - 1);
        let d: u8 = (v % 16) as u8;
        let c: char = if d < 10 {
            (d + 48) as char
        } else {
            (d + 55) as char
        };
        push_char(s, c);
        assert(s@ =~= old(s)@ + hex_fixed(v as nat, w as nat));
    } else {
        assert(s@ =~= old(s)@ + hex_fixed(v as nat, w as nat));
    }
}

/// Appends all characters of `t`.
pub(crate) fn push_str(s: &mut String, t: &str)
    ensures
        final(s)@ == old(s)@ + t@,
{
    let n = t.unicode_len();
    let mut i: usize = 0;
    while i < n
        invariant
            n == t@.len(),
            i <= n,
            s@ == old(s)@ + t@.subrange(0, i as int),
        decreases n - i,
    {
        let c = t.get_char(i);
        push_char(s, c);
        i = i + 1;
        assert(s@ =~= old(s)@ + t@.subrange(0, i as int));
    }
    assert(t@.subrange(0, n as int) =~= t@);
}

/// A new string holding the characters of `t`.
pub(crate) fn string_of(t: &str) -> (r: String)
    ensures
        r@ == t@,
{
    let mut r = String::new();
    push_str(&mut r, t);
    assert(r@ =~= t@);
    r
}

/// The sequence without leading whitespace (`str::trim_start`).
pub open spec fn trim_start_chars(s: Seq<char>) -> Seq<char>
    decreases s.len(),
{
    if s.len() > 0 && char_is_whitespace(s[0]) {
        trim_start_chars(s.drop_first())
    } else {
        s
    }
}

/// The sequence without trailing whitespace (`str::trim_end`).
pub open spec fn trim_end_chars(s: Seq<char>) -> Seq<char>
    decreases s.len(),
{
    if s.len() > 0 && char_is_whitespace(s.last()) {
        trim_end_chars(s.drop_last())
    } else {
        s
    }
}

/// The sequence without leading and trailing whitespace (`str::trim`).
pub open spec fn trim_chars(s: Seq<char>) -> Seq<char> {
    trim_end_chars(trim_start_chars(s))
}

proof fn lemma_trim_start_step(s: Seq<char>, i: int)
    requires
        0 <= i < s.len(),
        char_is_whitespace(s[i]),
    ensures
        trim_start_chars(s.subrange(i, s.len() as int)) == trim_start_chars(
            s.subrange(i + 1, s.len() as int),
        ),
{
    assert(s.subrange(i, s.len() as int).drop_first() =~= s.subrange(i + 1, s.len() as int));
}

proof fn lemma_trim_end_step(s: Seq<char>, j: int)
    requires
        0 < j <= s.len(),
        char_is_whitespace(s[j - 1]),
    ensures
        trim_end_chars(s.subrange(0, j)) == trim_end_chars(s.subrange(0, j - 1)),
{
    assert(s.subrange(0, j).drop_last() =~= s.subrange(0, j - 1));
}

/// The characters of `t` without leading and trailing whitespace.
pub fn trimmed(t: &str) -> (r: String)
    ensures
        r@ == trim_chars(t@),
{
    let n = t.unicode_len();
    let mut i: usize = 0;
    assert(t@.subrange(0, n as int) =~= t@);
    while i < n && is_whitespace(t.get_char(i))
        invariant
            n == t@.len(),
            i <= n,
            trim_start_chars(t@) == trim_start_chars(t@.subrange(i as int, n as int)),
        decreases n - i,
    {
        proof {
            lemma_trim_start_step(t@, i as int);
        }
        i = i + 1;
    }
    proof {
        assert(t@.subrange(0, n as int) =~= t@);
    }
    let ghost mid = t@.subrange(i as int, n as int);
    assert(trim_start_chars(t@) == mid) by {
        if i < n {
            assert(mid[0] == t@[i as int]);
        } else {
            assert(mid.len() == 0);
        }
    }
    let mut j: usize = n;
    assert(mid.subrange(0, j - i) =~= mid);
    while j > i && is_whitespace(t.get_char(j - 1))
        invariant
            n == t@.len(),
            i <= j <= n,
            mid == t@.subrange(i as int, n as int),
            trim_end_chars(mid) == trim_end_chars(mid.subrange(0, j - i)),
        decreases j,
    {
        proof {
            lemma_trim_end_step(mid, j - i);
        }
        j = j - 1;
    }
    proof {
        let m = mid.subrange(0, j - i);
        if j > i {
            assert(m.last() == t@[j - 1]);
        }
        assert(trim_end_chars(m) == m);
        assert(mid.subrange(0, mid.len() as int) =~= mid);
    }
    let mut r = String::new();
    let mut k: usize = i;
    while k < j
        invariant
            n == t@.len(),
            i <= k <= j <= n,
            r@ == t@.subrange(i as int, k as int),
        decreases j - k,
    {
        push_char(&mut r, t.get_char(k));
        k = k + 1;
        assert(r@ =~= t@.subrange(i as int, k as int));
    }
    assert(r@ =~= mid.subrange(0, j - i));
    r
}

/// Whether `t` is empty after trimming whitespace (`t.trim().is_empty()`).
pub fn is_blank(t: &str) -> (r: bool)
    ensures
        r == (trim_chars(t@).len() == 0),
{
    let s = trimmed(t);
    s.as_str().unicode_len() == 0
}


/// Whether `char::is_alphanumeric` holds of a character (Unicode Alphabetic
/// or Numeric).
pub uninterp spec fn char_is_alphanumeric(c: char) -> bool;

/// `char::is_alphanumeric`. Claimed: the result is
/// `char_is_alphanumeric(c)`, a function of the character alone.
#[verifier::external_body]
pub(crate) fn is_alphanumeric(c: char) -> (r: bool)
    ensures
        r == char_is_alphanumeric(c),
{
    c.is_alphanumeric()
}

/// The characters of `char::to_lowercase` (the Unicode lower-case mapping).
pub uninterp spec fn char_lowercase(c: char) -> Seq<char>;

/// `char::to_lowercase`, collected. Claimed: the characters are
/// `char_lowercase(c)`, a function of the character alone.
#[verifier::external_body]
pub(crate) fn lowercase(c: char) -> (r: Vec<char>)
    ensures
        r@ == char_lowercase(c),
{
    c.to_lowercase().collect()
}

/// Normalised text for matching titles and artists: the lower-case forms of
/// its alphanumeric characters, everything else dropped.
pub open spec fn norm_chars(s: Seq<char>) -> Seq<char>
    decreases s.len(),
{
    if s.len() == 0 {
        seq![]
    } else if char_is_alphanumeric(s.last()) {
        norm_chars(s.drop_last()) + char_lowercase(s.last())
    } else {
        norm_chars(s.drop_last())
    }
}

/// Normalises text for matching: lower case, alphanumeric characters only
/// (so "(Movie Edit)" and "(movie edit.)" match).
pub fn norm(s: &str) -> (r: String)
    ensures
        r@ == norm_chars(s@),
{
    let n = s.unicode_len();
    let mut r = String::new();
    let mut i: usize = 0;
    while i < n
        invariant
            n == s@.len(),
            i <= n,
            r@ == norm_chars(s@.take(i as int)),
        decreases n - i,
    {
        let c = s.get_char(i);
        assert(s@.take(i + 1).drop_last() =~= s@.take(i as int));
        assert(s@.take(i + 1).last() == c);
        if is_alphanumeric(c) {
            let low = lowercase(c);
            let m = low.len();
            let mut j: usize = 0;
            let ghost before = r@;
            while j < m
                invariant
                    m == low@.len(),
                    j <= m,
                    r@ == before + low@.take(j as int),
                decreases m - j,
            {
                push_char(&mut r, low[j]);
                assert(low@.take(j + 1) =~= low@.take(j as int).push(low@[j as int]));
                j = j + 1;
            }
            assert(low@.take(m as int) =~= low@);
        }
        i = i + 1;
    }
    assert(s@.take(n as int) =~= s@);
    r
}

/// `needle` occurs in `hay` at position `i`.
pub open spec fn occurs_at(hay: Seq<char>, needle: Seq<char>, i: int) -> bool {
    0 <= i && i + needle.len() <= hay.len() && hay.subrange(i, i + needle.len()) == needle
}

/// `needle` occurs somewhere in `hay` (`str::contains`).
pub open spec fn contains_chars(hay: Seq<char>, needle: Seq<char>) -> bool {
    exists|i: int| occurs_at(hay, needle, i)
}

/// Whether `needle` occurs in `hay`.
pub fn contains(hay: &str, needle: &str) -> (r: bool)
    ensures
        r == contains_chars(hay@, needle@),
{
    let n = hay.unicode_len();
    let m = needle.unicode_len();
    if m > n {
        return false;
    }
    let mut i: usize = 0;
    while i <= n - m
        invariant
            n == hay@.len(),
            m == needle@.len(),
            m <= n,
            i <= n - m + 1,
            forall|k: int| 0 <= k < i ==> !occurs_at(hay@, needle@, k),
        decreases n - i,
    {
        let mut j: usize = 0;
        while j < m && hay.get_char(i + j) == needle.get_char(j)
            invariant
                n == hay@.len(),
                m == needle@.len(),
                i + m <= n,
                j <= m,
                forall|t: int| 0 <= t < j ==> hay@[i + t] == needle@[t],
            decreases m - j,
        {
            j = j + 1;
        }
        if j == m {
            assert(hay@.subrange(i as int, i + m) =~= needle@);
            assert(occurs_at(hay@, needle@, i as int));
            return true;
        }
        assert(!occurs_at(hay@, needle@, i as int)) by {
            if occurs_at(hay@, needle@, i as int) {
                assert(hay@.subrange(i as int, i + m)[j as int] == hay@[i + j]);
            }
        }
        i = i + 1;
    }
    assert(!contains_chars(hay@, needle@)) by {
        if contains_chars(hay@, needle@) {
            let k = choose|k: int| occurs_at(hay@, needle@, k);
            assert(k < i);
        }
    }
    false
}

/// `s` begins with `prefix` (`str::starts_with`).
pub open spec fn starts_with_chars(s: Seq<char>, prefix: Seq<char>) -> bool {
    prefix.len() <= s.len() && s.subrange(0, prefix.len() as int) == prefix
}

/// Whether `s` begins with `prefix`.
pub fn starts_with(s: &str, prefix: &str) -> (r: bool)
    ensures
        r == starts_with_chars(s@, prefix@),
{
    let n = s.unicode_len();
    let m = prefix.unicode_len();
    if m > n {
        return false;
    }
    let mut j: usize = 0;
    while j < m
        invariant
            n == s@.len(),
            m == prefix@.len(),
            m <= n,
            j <= m,
            forall|t: int| 0 <= t < j ==> s@[t] == prefix@[t],
        decreases m - j,
    {
        if s.get_char(j) != prefix.get_char(j) {
            assert(s@.subrange(0, m as int)[j as int] == s@[j as int]);
            return false;
        }
        j = j + 1;
    }
    assert(s@.subrange(0, m as int) =~= prefix@);
    true
}


/// A line without the carriage return of a "\r\n" ending.
pub open spec fn strip_cr(l: Seq<char>) -> Seq<char> {
    if l.len() > 0 && l.last() == '\r' {
        l.drop_last()
    } else {
        l
    }
}

/// Lines of `s` after the line `cur` begun so far and the lines `acc`
/// already complete.
pub open spec fn lines_from(s: Seq<char>, cur: Seq<char>, acc: Seq<Seq<char>>) -> Seq<Seq<char>>
    decreases s.len(),
{
    if s.len() == 0 {
        if cur.len() > 0 {
            acc.push(cur)
        } else {
            acc
        }
    } else if s[0] == '\n' {
        lines_from(s.drop_first(), seq![], acc.push(strip_cr(cur)))
    } else {
        lines_from(s.drop_first(), cur.push(s[0]), acc)
    }
}

/// The lines of a text as `str::lines` yields them: split at "\n", a "\r"
/// before it dropped, and no empty line after a final "\n".
pub open spec fn text_lines(s: Seq<char>) -> Seq<Seq<char>> {
    lines_from(s, seq![], seq![])
}

/// No character of `x` is a newline.
pub open spec fn no_newline(x: Seq<char>) -> bool {
    forall|i: int| 0 <= i < x.len() ==> x[i] != '\n'
}

/// Lines already complete are kept in front of those still to come.
pub proof fn lemma_lines_acc(s: Seq<char>, cur: Seq<char>, acc: Seq<Seq<char>>)
    ensures
        lines_from(s, cur, acc) == acc + lines_from(s, cur, seq![]),
    decreases s.len(),
{
    if s.len() == 0 {
        if cur.len() > 0 {
            assert(acc.push(cur) =~= acc + seq![cur]);
            assert(Seq::<Seq<char>>::empty().push(cur) =~= seq![cur]);
        } else {
            assert(acc =~= acc + Seq::<Seq<char>>::empty());
        }
    } else if s[0] == '\n' {
        let x = strip_cr(cur);
        lemma_lines_acc(s.drop_first(), seq![], acc.push(x));
        lemma_lines_acc(s.drop_first(), seq![], seq![x]);
        assert(Seq::<Seq<char>>::empty().push(x) =~= seq![x]);
        let t = lines_from(s.drop_first(), seq![], seq![]);
        assert(acc.push(x) + t =~= acc + (seq![x] + t));
    } else {
        lemma_lines_acc(s.drop_first(), cur.push(s[0]), acc);
    }
}

/// A text that ends with a newline, followed by more text: its lines, then
/// the lines of the rest.
pub proof fn lemma_lines_concat(
    a: Seq<char>,
    b: Seq<char>,
    cur: Seq<char>,
    acc: Seq<Seq<char>>,
)
    requires
        a.len() > 0,
        a.last() == '\n',
    ensures
        lines_from(a + b, cur, acc) == lines_from(b, seq![], lines_from(a, cur, acc)),
    decreases a.len(),
{
    assert((a + b)[0] == a[0]);
    assert((a + b).drop_first() =~= a.drop_first() + b);
    if a.len() == 1 {
        assert(a[0] == '\n');
        assert(a.drop_first().len() == 0);
        assert(a.drop_first() + b =~= b);
        let x = acc.push(strip_cr(cur));
        assert(lines_from(a.drop_first(), seq![], x) == x);
        assert(lines_from(a, cur, acc) == x);
        assert(lines_from(a + b, cur, acc) == lines_from(b, seq![], x));
    } else {
        let a2 = a.drop_first();
        assert(a2.last() == a.last());
        if a[0] == '\n' {
            let x = acc.push(strip_cr(cur));
            lemma_lines_concat(a2, b, seq![], x);
            assert(lines_from(a, cur, acc) == lines_from(a2, seq![], x));
            assert(lines_from(a + b, cur, acc) == lines_from(a2 + b, seq![], x));
        } else {
            lemma_lines_concat(a2, b, cur.push(a[0]), acc);
            assert(lines_from(a, cur, acc) == lines_from(a2, cur.push(a[0]), acc));
            assert(lines_from(a + b, cur, acc) == lines_from(a2 + b, cur.push(a[0]), acc));
        }
    }
}

/// A line without a newline, a newline, then the rest.
pub proof fn lemma_line_then(x: Seq<char>, rest: Seq<char>, cur: Seq<char>, acc: Seq<Seq<char>>)
    requires
        no_newline(x),
    ensures
        lines_from(x + seq!['\n'] + rest, cur, acc) == lines_from(
            rest,
            seq![],
            acc.push(strip_cr(cur + x)),
        ),
    decreases x.len(),
{
    let s = x + seq!['\n'] + rest;
    if x.len() == 0 {
        assert(s[0] == '\n');
        assert(s.drop_first() =~= rest);
        assert(cur + x =~= cur);
    } else {
        assert(s[0] == x[0]);
        assert(s.drop_first() =~= x.drop_first() + seq!['\n'] + rest);
        assert(no_newline(x.drop_first())) by {
            assert forall|i: int| 0 <= i < x.drop_first().len() implies x.drop_first()[i] != '\n' by {
                assert(x.drop_first()[i] == x[i + 1]);
            }
        }
        lemma_line_then(x.drop_first(), rest, cur.push(x[0]), acc);
        assert(cur.push(x[0]) + x.drop_first() =~= cur + x);
    }
}

/// No line of a text holds a newline.
pub proof fn lemma_lines_no_newline(s: Seq<char>, cur: Seq<char>, acc: Seq<Seq<char>>)
    requires
        no_newline(cur),
        forall|i: int| 0 <= i < acc.len() ==> no_newline(#[trigger] acc[i]),
    ensures
        forall|i: int|
            0 <= i < lines_from(s, cur, acc).len() ==> no_newline(
                #[trigger] lines_from(s, cur, acc)[i],
            ),
    decreases s.len(),
{
    if s.len() == 0 {
        if cur.len() > 0 {
            assert(lines_from(s, cur, acc) == acc.push(cur));
            assert forall|i: int| 0 <= i < acc.push(cur).len() implies no_newline(
                #[trigger] acc.push(cur)[i],
            ) by {
                if i < acc.len() {
                    assert(acc.push(cur)[i] == acc[i]);
                }
            }
        }
    } else if s[0] == '\n' {
        let x = strip_cr(cur);
        assert(no_newline(x)) by {
            assert forall|i: int| 0 <= i < x.len() implies x[i] != '\n' by {
                assert(x[i] == cur[i]);
            }
        }
        assert forall|i: int| 0 <= i < acc.push(x).len() implies no_newline(
            #[trigger] acc.push(x)[i],
        ) by {
            if i < acc.len() {
                assert(acc.push(x)[i] == acc[i]);
            }
        }
        lemma_lines_no_newline(s.drop_first(), seq![], acc.push(x));
        assert(lines_from(s, cur, acc) == lines_from(s.drop_first(), seq![], acc.push(x)));
    } else {
        assert(no_newline(cur.push(s[0]))) by {
            assert forall|i: int| 0 <= i < cur.push(s[0]).len() implies cur.push(s[0])[i] != '\n' by {
                if i < cur.len() {
                    assert(cur.push(s[0])[i] == cur[i]);
                }
            }
        }
        lemma_lines_no_newline(s.drop_first(), cur.push(s[0]), acc);
        assert(lines_from(s, cur, acc) == lines_from(s.drop_first(), cur.push(s[0]), acc));
    }
}

/// The lines of a text.
pub fn lines_of(s: &str) -> (r: Vec<String>)
    ensures
        r@.map_values(|l: String| l@) == text_lines(s@),
{
    let n = s.unicode_len();
    let mut out: Vec<String> = Vec::new();
    let mut cur = String::new();
    let mut i: usize = 0;
    assert(s@.skip(0) =~= s@);
    assert(cur@ =~= Seq::<char>::empty());
    assert(out@.map_values(|l: String| l@) =~= Seq::<Seq<char>>::empty());
    while i < n
        invariant
            n == s@.len(),
            i <= n,
            lines_from(s@.skip(i as int), cur@, out@.map_values(|l: String| l@)) == text_lines(
                s@,
            ),
        decreases n - i,
    {
        let c = s.get_char(i);
        let ghost rest = s@.skip(i as int);
        assert(rest[0] == c);
        assert(rest.drop_first() =~= s@.skip(i + 1));
        let ghost acc = out@.map_values(|l: String| l@);
        if c == '\n' {
            let m = cur.as_str().unicode_len();
            let line = if m > 0 && cur.as_str().get_char(m - 1) == '\r' {
                let mut l = String::new();
                let mut k: usize = 0;
                while k < m - 1
                    invariant
                        m == cur@.len(),
                        m > 0,
                        k <= m - 1,
                        l@ == cur@.take(k as int),
                    decreases m - 1 - k,
                {
                    push_char(&mut l, cur.as_str().get_char(k));
                    assert(l@ =~= cur@.take(k + 1));
                    k = k + 1;
                }
                assert(l@ =~= strip_cr(cur@));
                l
            } else {
                cur
            };
            out.push(line);
            assert(out@.map_values(|l: String| l@) =~= acc.push(strip_cr(cur@)));
            cur = String::new();
        } else {
            push_char(&mut cur, c);
        }
        i = i + 1;
    }
    if cur.as_str().unicode_len() > 0 {
        let ghost acc = out@.map_values(|l: String| l@);
        let ghost cv = cur@;
        out.push(cur);
        assert(out@.map_values(|l: String| l@) =~= acc.push(cv));
    }
    out
}


/// The texts of a list of strings.
pub open spec fn string_views(v: Seq<String>) -> Seq<Seq<char>> {
    v.map_values(|s: String| s@)
}


/// Whether every character is an ASCII decimal digit.
pub open spec fn all_digits(s: Seq<char>) -> bool {
    forall|i: int| 0 <= i < s.len() ==> '0' <= #[trigger] s[i] <= '9'
}

/// The value of a string of decimal digits.
pub open spec fn digits_value(s: Seq<char>) -> nat
    decreases s.len(),
{
    if s.len() == 0 {
        0
    } else {
        digits_value(s.drop_last()) * 10 + ((s.last() as int) - 48) as nat
    }
}

/// What `str::parse::<u64>` gives, as documented for `u64::from_str_radix`
/// with radix 10: an optional `+` followed by one or more digits whose value
/// fits in a `u64`; anything else (a sign alone, other characters,
/// whitespace, overflow) is an error, here `None`.
pub open spec fn parsed_u64(s: Seq<char>) -> Option<u64> {
    let d = if s.len() > 0 && s[0] == '+' {
        s.drop_first()
    } else {
        s
    };
    if d.len() > 0 && all_digits(d) && digits_value(d) <= u64::MAX {
        Some(digits_value(d) as u64)
    } else {
        None
    }
}

/// The value of a digit string is at least that of each of its prefixes.
proof fn lemma_digits_value_prefix(s: Seq<char>, j: int)
    requires
        0 <= j <= s.len(),
        all_digits(s),
    ensures
        digits_value(s.take(j)) <= digits_value(s),
    decreases s.len(),
{
    if j < s.len() {
        let t = s.drop_last();
        assert(all_digits(t)) by {
            assert forall|i: int| 0 <= i < t.len() implies '0' <= #[trigger] t[i] <= '9' by {
                assert(t[i] == s[i]);
            }
        }
        assert(t.take(j) =~= s.take(j));
        lemma_digits_value_prefix(t, j);
    } else {
        assert(s.take(j) =~= s);
    }
}

/// Parses a decimal `u64` as `str::parse::<u64>` does (optional `+`, one or
/// more digits, no overflow).
pub fn parse_u64(s: &str) -> (r: Option<u64>)
    ensures
        r == parsed_u64(s@),
{
    let n = s.unicode_len();
    let start: usize = if n > 0 && s.get_char(0) == '+' {
        1
    } else {
        0
    };
    let ghost d = if s@.len() > 0 && s@[0] == '+' {
        s@.drop_first()
    } else {
        s@
    };
    assert(d =~= s@.skip(start as int));
    if start == n {
        return None;
    }
    let mut v: u64 = 0;
    let mut i: usize = start;
    assert(d.take(0) =~= Seq::<char>::empty());
    while i < n
        invariant
            n == s@.len(),
            start <= i <= n,
            d == s@.skip(start as int),
            d == (if s@.len() > 0 && s@[0] == '+' {
                s@.drop_first()
            } else {
                s@
            }),
            all_digits(d.take(i - start)),
            v == digits_value(d.take(i - start)),
        decreases n - i,
    {
        let c = s.get_char(i);
        assert(d[i - start] == c);
        if c < '0' || c > '9' {
            assert(!all_digits(d)) by {
                assert(!('0' <= d[i - start] <= '9'));
            }
            return None;
        }
        let ghost t = d.take(i - start + 1);
        assert(t.drop_last() =~= d.take(i - start));
        assert(t.last() == c);
        assert(all_digits(t)) by {
            assert forall|k: int| 0 <= k < t.len() implies '0' <= #[trigger] t[k] <= '9' by {
                if k < t.len() - 1 {
                    assert(t[k] == d.take(i - start)[k]);
                }
            }
        }
        let dig: u64 = (c as u32 - 48) as u64;
        let ok = v <= (u64::MAX - dig) / 10;
        if !ok {
            proof {
                assert(digits_value(t) > u64::MAX) by (nonlinear_arith)
                    requires
                        digits_value(t) == v * 10 + dig,
                        v > (u64::MAX - dig) / 10,
                        dig <= 9,
                ;
                if all_digits(d) {
                    lemma_digits_value_prefix(d, i - start + 1);
                }
            }
            return None;
        }
        assert(v * 10 + dig <= u64::MAX) by (nonlinear_arith)
            requires
                v <= (u64::MAX - dig) / 10,
                dig <= 9,
        ;
        v = v * 10 + dig;
        i = i + 1;
    }
    assert(d.take(n - start) =~= d);
    Some(v)
}

} // verus!
