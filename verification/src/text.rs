//! Character classes and small string utilities shared by the parser,
//! the formatters and the editor helpers.
use vstd::prelude::*;

verus! {

/// ASCII letter (`char::is_ascii_alphabetic`).
pub open spec fn is_ascii_alpha(c: char) -> bool {
    ('a' <= c && c <= 'z') || ('A' <= c && c <= 'Z')
}

/// ASCII decimal digit (`char::is_ascii_digit`).
pub open spec fn is_ascii_digit(c: char) -> bool {
    '0' <= c && c <= '9'
}

/// ASCII letter or digit (`char::is_ascii_alphanumeric`).
pub open spec fn is_ascii_alnum(c: char) -> bool {
    is_ascii_alpha(c) || is_ascii_digit(c)
}

/// ASCII hexadecimal digit (`char::is_ascii_hexdigit`).
pub open spec fn is_hex_digit(c: char) -> bool {
    is_ascii_digit(c) || ('a' <= c && c <= 'f') || ('A' <= c && c <= 'F')
}

/// Space or tab: the characters of an inline gap.
pub open spec fn is_space_or_tab(c: char) -> bool {
    c == ' ' || c == '\t'
}

/// Space, tab, carriage return or line feed.
pub open spec fn is_multispace(c: char) -> bool {
    c == ' ' || c == '\t' || c == '\r' || c == '\n'
}

/// Characters with the Unicode `White_Space` property, which is what
/// `char::is_whitespace` and the `trim` family test.
pub open spec fn is_unicode_whitespace(c: char) -> bool {
    let u: u32 = c as u32;
    ||| (0x09 <= u && u <= 0x0D)
    ||| u == 0x20
    ||| u == 0x85
    ||| u == 0xA0
    ||| u == 0x1680
    ||| (0x2000 <= u && u <= 0x200A)
    ||| u == 0x2028
    ||| u == 0x2029
    ||| u == 0x202F
    ||| u == 0x205F
    ||| u == 0x3000
}

/// Number of bytes of the UTF-8 encoding of a character.
pub open spec fn utf8_len(c: char) -> nat {
    let u: u32 = c as u32;
    if u < 0x80 {
        1
    } else if u < 0x800 {
        2
    } else if u < 0x10000 {
        3
    } else {
        4
    }
}

/// Number of bytes of the UTF-8 encoding of a character sequence.
pub open spec fn utf8_len_seq(s: Seq<char>) -> nat
    decreases s.len(),
{
    if s.len() == 0 {
        0
    } else {
        utf8_len_seq(s.drop_last()) + utf8_len(s.last())
    }
}

pub fn ascii_alpha(c: char) -> (r: bool)
    returns
        is_ascii_alpha(c),
{
    ('a' <= c && c <= 'z') || ('A' <= c && c <= 'Z')
}

pub fn ascii_digit(c: char) -> (r: bool)
    returns
        is_ascii_digit(c),
{
    '0' <= c && c <= '9'
}

pub fn ascii_alnum(c: char) -> (r: bool)
    returns
        is_ascii_alnum(c),
{
    ascii_alpha(c) || ascii_digit(c)
}

pub fn hex_digit_char(c: char) -> (r: bool)
    returns
        is_hex_digit(c),
{
    ascii_digit(c) || ('a' <= c && c <= 'f') || ('A' <= c && c <= 'F')
}

pub fn space_or_tab(c: char) -> (r: bool)
    returns
        is_space_or_tab(c),
{
    c == ' ' || c == '\t'
}

pub fn multispace(c: char) -> (r: bool)
    returns
        is_multispace(c),
{
    c == ' ' || c == '\t' || c == '\r' || c == '\n'
}

/// `char::is_whitespace`.
pub fn unicode_whitespace(c: char) -> (r: bool)
    returns
        is_unicode_whitespace(c),
{
    let u: u32 = c as u32;
    (0x09 <= u && u <= 0x0D) || u == 0x20 || u == 0x85 || u == 0xA0 || u == 0x1680 || (0x2000
        <= u && u <= 0x200A) || u == 0x2028 || u == 0x2029 || u == 0x202F || u == 0x205F || u
        == 0x3000
}

/// `char::len_utf8`.
pub fn char_utf8_len(c: char) -> (r: usize)
    ensures
        r == utf8_len(c),
{
    let u: u32 = c as u32;
    if u < 0x80 {
        1
    } else if u < 0x800 {
        2
    } else if u < 0x10000 {
        3
    } else {
        4
    }
}

/// Equality of two string slices: the same characters.
pub(crate) fn str_eq(a: &str, b: &str) -> (r: bool)
    ensures
        r == (a@ == b@),
{
    let x = chars_of(a);
    let y = chars_of(b);
    if x.len() != y.len() {
        return false;
    }
    let mut i: usize = 0;
    while i < x.len()
        invariant
            x@ == a@,
            y@ == b@,
            x.len() == y.len(),
            i <= x.len(),
            forall|j: int| 0 <= j < i ==> x@[j] == y@[j],
        decreases x.len() - i,
    {
        if x[i] != y[i] {
            return false;
        }
        i += 1;
    }
    assert(x@ =~= y@);
    true
}

/// Appends one character to a string (`String::push`).
#[verifier::external_body]
pub(crate) fn push_char(s: &mut String, c: char)
    ensures
        final(s)@ == old(s)@.push(c),
{
    s.push(c);
}

/// Appends a string slice to a string.
pub fn push_str(s: &mut String, t: &str)
    ensures
        final(s)@ == old(s)@ + t@,
{
    s.append(t);
}

/// The characters of a string slice, in order.
pub fn chars_of(s: &str) -> (v: Vec<char>)
    ensures
        v@ == s@,
{
    let mut v: Vec<char> = Vec::new();
    for c in it: s.chars()
        invariant
            v.len() == it.index(),
            forall|j: int| 0 <= j < v.len() ==> v@[j] == it.seq()[j],
    {
        v.push(c);
    }
    assert(v@ =~= s@);
    v
}

/// The string made of the characters `v[lo..hi]`.
pub fn string_of(v: &[char], lo: usize, hi: usize) -> (s: String)
    requires
        lo <= hi <= v@.len(),
    ensures
        s@ == v@.subrange(lo as int, hi as int),
{
    let mut s = String::new();
    let mut i: usize = lo;
    while i < hi
        invariant
            lo <= i <= hi <= v@.len(),
            s@ == v@.subrange(lo as int, i as int),
        decreases hi - i,
    {
        push_char(&mut s, v[i]);
        i += 1;
        assert(s@ =~= v@.subrange(lo as int, i as int));
    }
    s
}

/// The string made of all characters of `v`.
pub fn string_of_all(v: &[char]) -> (s: String)
    ensures
        s@ == v@,
{
    let s = string_of(v, 0, v.len());
    assert(v@.subrange(0, v@.len() as int) =~= v@);
    s
}

/// Whether `s` contains the character `c`.
pub fn seq_contains_char(s: &[char], c: char) -> (r: bool)
    ensures
        r == s@.contains(c),
{
    let mut i: usize = 0;
    while i < s.len()
        invariant
            0 <= i <= s.len(),
            forall|j: int| 0 <= j < i ==> s@[j] != c,
        decreases s.len() - i,
    {
        if s[i] == c {
            assert(s@[i as int] == c);
            return true;
        }
        i += 1;
    }
    false
}

/// Appends the characters of `t` to `out`.
pub fn extend_chars(out: &mut Vec<char>, t: &str)
    ensures
        final(out)@ == old(out)@ + t@,
{
    let cs = chars_of(t);
    extend_from(out, &cs, 0, cs.len());
    assert(cs@.subrange(0, cs@.len() as int) =~= t@);
}

/// Appends `v[lo..hi]` to `out`.
pub fn extend_from(out: &mut Vec<char>, v: &Vec<char>, lo: usize, hi: usize)
    requires
        lo <= hi <= v@.len(),
    ensures
        final(out)@ == old(out)@ + v@.subrange(lo as int, hi as int),
{
    let ghost start = out@;
    let mut i: usize = lo;
    while i < hi
        invariant
            lo <= i <= hi <= v@.len(),
            out@ == start + v@.subrange(lo as int, i as int),
        decreases hi - i,
    {
        out.push(v[i]);
        i += 1;
        assert(out@ =~= start + v@.subrange(lo as int, i as int));
    }
}

/// Number of leading characters with the `White_Space` property.
pub open spec fn leading_ws(s: Seq<char>) -> nat
    decreases s.len(),
{
    if s.len() > 0 && is_unicode_whitespace(s[0]) {
        1 + leading_ws(s.drop_first())
    } else {
        0
    }
}

/// Number of trailing characters with the `White_Space` property.
pub open spec fn trailing_ws(s: Seq<char>) -> nat
    decreases s.len(),
{
    if s.len() > 0 && is_unicode_whitespace(s.last()) {
        1 + trailing_ws(s.drop_last())
    } else {
        0
    }
}

/// `str::trim_start`.
pub open spec fn trim_start(s: Seq<char>) -> Seq<char> {
    s.skip(leading_ws(s) as int)
}

/// `str::trim_end`.
pub open spec fn trim_end(s: Seq<char>) -> Seq<char> {
    s.take(s.len() - trailing_ws(s))
}

/// `str::trim`.
pub open spec fn trim(s: Seq<char>) -> Seq<char> {
    trim_end(trim_start(s))
}

pub proof fn lemma_leading_ws(s: Seq<char>, i: int)
    requires
        0 <= i <= s.len(),
        forall|j: int| 0 <= j < i ==> is_unicode_whitespace(#[trigger] s[j]),
        i == s.len() || !is_unicode_whitespace(s[i]),
    ensures
        leading_ws(s) == i,
    decreases i,
{
    if i > 0 {
        lemma_leading_ws(s.drop_first(), i - 1);
    }
}

pub proof fn lemma_trailing_ws(s: Seq<char>, k: int)
    requires
        0 <= k <= s.len(),
        forall|j: int| s.len() - k <= j < s.len() ==> is_unicode_whitespace(#[trigger] s[j]),
        k == s.len() || !is_unicode_whitespace(s[s.len() - k - 1]),
    ensures
        trailing_ws(s) == k,
    decreases k,
{
    if k > 0 {
        lemma_trailing_ws(s.drop_last(), k - 1);
    }
}

/// Index of the first character of `v[lo..hi]` that is not whitespace
/// (or `hi`).
pub fn skip_ws_forward(v: &Vec<char>, lo: usize, hi: usize) -> (r: usize)
    requires
        lo <= hi <= v@.len(),
    ensures
        lo <= r <= hi,
        r as int - lo == leading_ws(v@.subrange(lo as int, hi as int)),
{
    let mut i: usize = lo;
    while i < hi && unicode_whitespace(v[i])
        invariant
            lo <= i <= hi <= v@.len(),
            forall|j: int| lo <= j < i ==> is_unicode_whitespace(#[trigger] v@[j]),
        decreases hi - i,
    {
        i += 1;
    }
    proof {
        let sub = v@.subrange(lo as int, hi as int);
        assert forall|j: int| 0 <= j < i - lo implies is_unicode_whitespace(#[trigger] sub[j]) by {
            assert(sub[j] == v@[lo + j]);
        }
        lemma_leading_ws(sub, i - lo);
    }
    i
}

/// Index just after the last character of `v[lo..hi]` that is not
/// whitespace (or `lo`).
pub fn skip_ws_backward(v: &Vec<char>, lo: usize, hi: usize) -> (r: usize)
    requires
        lo <= hi <= v@.len(),
    ensures
        lo <= r <= hi,
        hi - r == trailing_ws(v@.subrange(lo as int, hi as int)),
{
    let mut i: usize = hi;
    while i > lo && unicode_whitespace(v[i - 1])
        invariant
            lo <= i <= hi <= v@.len(),
            forall|j: int| i <= j < hi ==> is_unicode_whitespace(#[trigger] v@[j]),
        decreases i - lo,
    {
        i -= 1;
    }
    proof {
        let sub = v@.subrange(lo as int, hi as int);
        assert forall|j: int| sub.len() - (hi - i) <= j < sub.len() implies is_unicode_whitespace(
            #[trigger] sub[j],
        ) by {
            assert(sub[j] == v@[lo + j]);
        }
        lemma_trailing_ws(sub, hi - i);
    }
    i
}

/// Number of occurrences of `c` in `s`.
pub open spec fn count_char(s: Seq<char>, c: char) -> nat
    decreases s.len(),
{
    if s.len() == 0 {
        0
    } else {
        count_char(s.drop_last(), c) + if s.last() == c {
            1nat
        } else {
            0nat
        }
    }
}

pub fn count_char_exec(v: &Vec<char>, c: char) -> (r: usize)
    ensures
        r == count_char(v@, c),
{
    let mut n: usize = 0;
    let mut i: usize = 0;
    while i < v.len()
        invariant
            0 <= i <= v@.len(),
            n == count_char(v@.take(i as int), c),
            n <= i,
        decreases v.len() - i,
    {
        assert(v@.take(i + 1).drop_last() =~= v@.take(i as int));
        if v[i] == c {
            n += 1;
        }
        i += 1;
    }
    assert(v@.take(i as int) =~= v@);
    n
}

/// Whether `s` ends with `t`.
pub open spec fn ends_with(s: Seq<char>, t: Seq<char>) -> bool {
    t.len() <= s.len() && s.skip(s.len() - t.len()) == t
}

/// Index of the first line feed of `s`, or its length.
pub open spec fn lf_index(s: Seq<char>) -> nat
    decreases s.len(),
{
    if s.len() == 0 {
        0
    } else if s[0] == '\n' {
        0
    } else {
        1 + lf_index(s.drop_first())
    }
}

pub proof fn lemma_lf_index(s: Seq<char>, k: int)
    requires
        0 <= k <= s.len(),
        forall|j: int| 0 <= j < k ==> #[trigger] s[j] != '\n',
        k == s.len() || s[k] == '\n',
    ensures
        lf_index(s) == k,
    decreases k,
{
    if k > 0 {
        lemma_lf_index(s.drop_first(), k - 1);
    }
}

/// The pieces of `s` between line feeds; there is always at least one.
pub open spec fn split_lf(s: Seq<char>) -> Seq<Seq<char>>
    decreases s.len(),
{
    let k = lf_index(s);
    if k >= s.len() {
        seq![s]
    } else {
        seq![s.take(k as int)] + split_lf(s.skip(k + 1 as int))
    }
}

proof fn lemma_lf_index_bound(s: Seq<char>)
    ensures
        lf_index(s) <= s.len(),
    decreases s.len(),
{
    if s.len() > 0 {
        lemma_lf_index_bound(s.drop_first());
    }
}

pub proof fn lemma_split_lf_len(s: Seq<char>)
    ensures
        split_lf(s).len() >= 1,
    decreases s.len(),
{
    lemma_lf_index_bound(s);
    let k = lf_index(s);
    if k < s.len() {
        lemma_split_lf_len(s.skip(k + 1 as int));
    }
}

/// Drops one trailing carriage return.
pub open spec fn strip_cr(s: Seq<char>) -> Seq<char> {
    if s.len() > 0 && s.last() == '\r' {
        s.drop_last()
    } else {
        s
    }
}

/// `str::lines`: the lines of `s`, each without its `\n` or `\r\n`; a
/// final line feed does not start another line.
pub open spec fn str_lines(s: Seq<char>) -> Seq<Seq<char>> {
    let p = split_lf(s);
    let terminated = p.drop_last().map_values(|x: Seq<char>| strip_cr(x));
    if p.last().len() == 0 {
        terminated
    } else {
        terminated.push(p.last())
    }
}

/// The pieces of `v` between line feeds, as `(start, end)` indices.
pub fn split_lf_exec(v: &Vec<char>) -> (r: Vec<(usize, usize)>)
    ensures
        r@.len() == split_lf(v@).len(),
        forall|j: int|
            0 <= j < r@.len() ==> {
                &&& (#[trigger] r@[j]).0 <= r@[j].1 <= v@.len()
                &&& v@.subrange(r@[j].0 as int, r@[j].1 as int) == split_lf(v@)[j]
            },
{
    let mut r: Vec<(usize, usize)> = Vec::new();
    let mut start: usize = 0;
    let mut i: usize = 0;
    assert(v@.skip(0) =~= v@);
    while i < v.len()
        invariant
            0 <= start <= i <= v@.len(),
            forall|j: int| start <= j < i ==> #[trigger] v@[j] != '\n',
            forall|j: int|
                0 <= j < r@.len() ==> {
                    &&& (#[trigger] r@[j]).0 <= r@[j].1 <= v@.len()
                    &&& v@.subrange(r@[j].0 as int, r@[j].1 as int) == split_lf(v@)[j]
                },
            r@.len() + split_lf(v@.skip(start as int)).len() == split_lf(v@).len(),
            forall|j: int|
                0 <= j < split_lf(v@.skip(start as int)).len() ==> #[trigger] split_lf(
                    v@.skip(start as int),
                )[j] == split_lf(v@)[r@.len() + j],
        decreases v.len() - i,
    {
        if v[i] == '\n' {
            proof {
                let t = v@.skip(start as int);
                assert forall|j: int| 0 <= j < i - start implies #[trigger] t[j] != '\n' by {
                    assert(t[j] == v@[start + j]);
                }
                lemma_lf_index(t, i - start);
                assert(t.take(i - start) =~= v@.subrange(start as int, i as int));
                assert(t.skip(i - start + 1) =~= v@.skip(i + 1));
                assert(split_lf(t) == seq![t.take(i - start)] + split_lf(v@.skip(i + 1)));
                assert(split_lf(t)[0] == v@.subrange(start as int, i as int));
                assert forall|j: int| 0 <= j < split_lf(v@.skip(i + 1)).len() implies #[trigger] split_lf(
                    v@.skip(i + 1),
                )[j] == split_lf(v@)[r@.len() + 1 + j] by {
                    assert(split_lf(t)[j + 1] == split_lf(v@.skip(i + 1))[j]);
                }
            }
            r.push((start, i));
            start = i + 1;
        }
        i += 1;
    }
    proof {
        let t = v@.skip(start as int);
        assert forall|j: int| 0 <= j < i - start implies #[trigger] t[j] != '\n' by {
            assert(t[j] == v@[start + j]);
        }
        lemma_lf_index(t, i - start);
        assert(split_lf(t) == seq![t]);
        assert(t =~= v@.subrange(start as int, v@.len() as int));
        assert(split_lf(t)[0] == split_lf(v@)[r@.len() as int]);
    }
    let ghost old_r = r@;
    r.push((start, v.len()));
    assert(r@[old_r.len() as int] == (start, v.len()));
    r
}

pub open spec fn is_cr_or_lf(c: char) -> bool {
    c == '\n' || c == '\r'
}

pub open spec fn leading_nl(s: Seq<char>) -> nat
    decreases s.len(),
{
    if s.len() > 0 && is_cr_or_lf(s[0]) {
        1 + leading_nl(s.drop_first())
    } else {
        0
    }
}

pub open spec fn trailing_nl(s: Seq<char>) -> nat
    decreases s.len(),
{
    if s.len() > 0 && is_cr_or_lf(s.last()) {
        1 + trailing_nl(s.drop_last())
    } else {
        0
    }
}

/// `trim_matches` of carriage returns and line feeds at both ends.
pub open spec fn trim_newlines(s: Seq<char>) -> Seq<char> {
    let t = s.skip(leading_nl(s) as int);
    t.take(t.len() - trailing_nl(t))
}

proof fn lemma_leading_nl(s: Seq<char>, i: int)
    requires
        0 <= i <= s.len(),
        forall|j: int| 0 <= j < i ==> is_cr_or_lf(#[trigger] s[j]),
        i == s.len() || !is_cr_or_lf(s[i]),
    ensures
        leading_nl(s) == i,
    decreases i,
{
    if i > 0 {
        lemma_leading_nl(s.drop_first(), i - 1);
    }
}

proof fn lemma_trailing_nl(s: Seq<char>, k: int)
    requires
        0 <= k <= s.len(),
        forall|j: int| s.len() - k <= j < s.len() ==> is_cr_or_lf(#[trigger] s[j]),
        k == s.len() || !is_cr_or_lf(s[s.len() - k - 1]),
    ensures
        trailing_nl(s) == k,
    decreases k,
{
    if k > 0 {
        lemma_trailing_nl(s.drop_last(), k - 1);
    }
}

/// The bounds `(lo, hi)` of `trim_newlines(v)` in `v`.
pub fn trim_newlines_bounds(v: &Vec<char>) -> (r: (usize, usize))
    ensures
        r.0 <= r.1 <= v@.len(),
        v@.subrange(r.0 as int, r.1 as int) == trim_newlines(v@),
{
    let mut lo: usize = 0;
    while lo < v.len() && (v[lo] == '\n' || v[lo] == '\r')
        invariant
            lo <= v@.len(),
            forall|j: int| 0 <= j < lo ==> is_cr_or_lf(#[trigger] v@[j]),
        decreases v.len() - lo,
    {
        lo += 1;
    }
    let mut hi: usize = v.len();
    while hi > lo && (v[hi - 1] == '\n' || v[hi - 1] == '\r')
        invariant
            lo <= hi <= v@.len(),
            forall|j: int| hi <= j < v@.len() ==> is_cr_or_lf(#[trigger] v@[j]),
        decreases hi - lo,
    {
        hi -= 1;
    }
    proof {
        lemma_leading_nl(v@, lo as int);
        let t = v@.skip(lo as int);
        assert forall|j: int| t.len() - (v@.len() - hi) <= j < t.len() implies is_cr_or_lf(#[trigger] t[j]) by {
            assert(t[j] == v@[lo + j]);
        }
        lemma_trailing_nl(t, v@.len() - hi);
        assert(t.take(t.len() - trailing_nl(t)) =~= v@.subrange(lo as int, hi as int));
    }
    (lo, hi)
}

} // verus!
