//! The tolerant reader: turns source text into a concrete syntax tree,
//! keeping whitespace and comments, and marking lines that cannot be
//! read instead of failing. Each reading function returns exactly what
//! its counterpart in `cst_grammar` describes.
use vstd::prelude::*;

use crate::cst::{
    CommandSyntax, CstArgument, CstAttribute, CstBlock, CstCommand, CstEmbeddedCode,
    CstLeadingText, CstLeadingTextContent, CstNode, CstParagraph, CstParameter, CstRoot,
    CstSystemCall, CstTailingText, CstTemplateLiteral, CstTemplatePart, CstText, CstTextKind,
    CstTextLine, CstTrivia, CstValue, CstValueKind, EmbeddedCodeSyntax, QuoteStyle, TriviaV,
    trivia_view,
};
use crate::cst::{
    cst_arguments_view, cst_block_view, cst_nodes_view, cst_paragraph_view, cst_parameters_view,
    opt_value_view, template_parts_view, CstArgumentV, CstNodeV, CstParameterV, CstTemplatePartV,
    CstValueV,
};
use crate::cst_grammar::{
    at, digits_value, find_char, find_pair, float_lookup, in_class, number_end, p_argument,
    p_attribute, p_attribute_condition, p_boolean_value, p_call, p_call_args, p_comma_args,
    p_comma_args_from, p_comma_params_from, p_identifier, p_number_value, p_parameter,
    p_parameters, p_space_args_from, p_string_value, p_template_value, p_trivia, p_trivias,
    p_trivias_from, p_value, p_variable_value, parse_i64, scan, split_dots, starts, CharClass,
    escaped, hex_digits_value, hex_value_of, is_char_code, p_quoted, p_template_literal,
    p_template_parts, quoted_body, template_text, unicode_escape, brace_close, hash_close,
    p_embedded_code, p_leading_text, p_tailing, p_text, p_text_line, command_error_message,
    error_line, p_block, p_block_children, p_paragraph, p_root_nodes, parse_tree, reader_finishes,
    system_call_error_message, trivia_nodes, block_step, line_step, BlockStepV, argument_floats,
    node_floats, nodes_floats, parameter_floats, value_floats,
};
use crate::text::{
    is_ascii_digit, is_hex_digit, skip_ws_backward, skip_ws_forward, trim, trim_end, utf8_len_seq,
};
use crate::format::{strings_view, Literal, RValue, Variable};
use crate::span::{byte_offset, fits_positions, Positions, SpanInfo};
use crate::text::{
    ascii_alnum, ascii_alpha, ascii_digit, hex_digit_char, multispace, space_or_tab, string_of,
    unicode_whitespace,
};

verus! {

/// The characters of a source text with the position of each.
pub struct Source {
    pub chars: Vec<char>,
    pub positions: Positions,
}

impl Source {
    pub open spec fn wf(&self) -> bool {
        &&& self.positions.wf(self.chars@)
        &&& self.chars@.len() + 4 < usize::MAX
    }

    pub open spec fn s(&self) -> Seq<char> {
        self.chars@
    }

    /// Reads the characters of `text` and computes their positions.
    pub fn new(text: &str) -> (r: Source)
        requires
            fits_positions(text@),
        ensures
            r.wf(),
            r.s() == text@,
    {
        let chars = crate::text::chars_of(text);
        let positions = Positions::new(&chars);
        proof {
            crate::span::lemma_positions_bounded(chars@, chars@.len() as int);
        }
        Source { chars, positions }
    }

    fn text(&self, lo: usize, hi: usize) -> (r: String)
        requires
            lo <= hi <= self.s().len(),
        ensures
            r@ == self.s().subrange(lo as int, hi as int),
    {
        string_of(self.chars.as_slice(), lo, hi)
    }

    fn range(&self, a: usize, b: usize) -> (r: SpanInfo)
        requires
            self.wf(),
            a <= self.s().len(),
            b <= self.s().len(),
        ensures
            r == crate::span::span_range(self.s(), a as int, b as int),
    {
        self.positions.range(Ghost(self.chars@), a, b)
    }

    fn token(&self, a: usize, len: usize) -> (r: SpanInfo)
        requires
            self.wf(),
            a <= self.s().len(),
            len <= 4,
        ensures
            r == crate::span::span_token(self.s(), a as int, len as nat),
    {
        self.positions.token(Ghost(self.chars@), a, len)
    }

    fn at(&self, i: usize, c: char) -> (r: bool)
        ensures
            r == at(self.s(), i as int, c),
    {
        i < self.chars.len() && self.chars[i] == c
    }
}

/// Texts of floats with the bit patterns of their values.
pub type FloatTable = Vec<(String, u64)>;

pub open spec fn float_table_view(t: Seq<(String, u64)>) -> Seq<(Seq<char>, u64)> {
    t.map_values(|e: (String, u64)| (e.0@, e.1))
}

fn float_bits(table: &FloatTable, src: &Source, lo: usize, hi: usize) -> (r: u64)
    requires
        lo <= hi <= src.s().len(),
    ensures
        r == float_lookup(float_table_view(table@), src.s().subrange(lo as int, hi as int)),
{
    let ghost raw = src.s().subrange(lo as int, hi as int);
    let mut k: usize = 0;
    assert(float_table_view(table@).skip(0) =~= float_table_view(table@));
    while k < table.len()
        invariant
            0 <= k <= table@.len(),
            lo <= hi <= src.s().len(),
            raw == src.s().subrange(lo as int, hi as int),
            float_lookup(float_table_view(table@).skip(k as int), raw) == float_lookup(
                float_table_view(table@),
                raw,
            ),
        decreases table.len() - k,
    {
        let ghost rest = float_table_view(table@).skip(k as int);
        assert(rest.drop_first() =~= float_table_view(table@).skip(k + 1));
        if same_chars(&table[k].0, src, lo, hi) {
            assert(rest[0] == (table@[k as int].0@, table@[k as int].1));
            return table[k].1;
        }
        k += 1;
    }
    0
}

fn same_chars(a: &String, src: &Source, lo: usize, hi: usize) -> (r: bool)
    requires
        lo <= hi <= src.s().len(),
    ensures
        r == (a@ == src.s().subrange(lo as int, hi as int)),
{
    let v = crate::text::chars_of(a.as_str());
    if v.len() != hi - lo {
        return false;
    }
    let mut k: usize = 0;
    while k < v.len()
        invariant
            0 <= k <= v@.len(),
            v@ == a@,
            v@.len() == hi - lo,
            lo <= hi <= src.s().len(),
            forall|j: int| 0 <= j < k ==> v@[j] == src.s()[lo + j],
        decreases v.len() - k,
    {
        if v[k] != src.chars[lo + k] {
            assert(a@[k as int] != src.s().subrange(lo as int, hi as int)[k as int]);
            assert(a@ != src.s().subrange(lo as int, hi as int));
            return false;
        }
        k += 1;
    }
    assert(v@ =~= src.s().subrange(lo as int, hi as int));
    true
}

// ---------------------------------------------------------------------
// Runs of characters
// ---------------------------------------------------------------------

fn class_test(k: CharClass, c: char) -> (r: bool)
    ensures
        r == in_class(k, c),
{
    match k {
        CharClass::NotLineEnd => c != '\n' && c != '\r',
        CharClass::Multispace => multispace(c),
        CharClass::SpaceTab => space_or_tab(c),
        CharClass::IdentChar => ascii_alnum(c) || c == '_',
        CharClass::VariableChar => ascii_alnum(c) || c == '.' || c == '_',
        CharClass::Digit => ascii_digit(c),
        CharClass::Not(x) => c != x,
        CharClass::LeadingBare => c != ']' && c != '\n',
        CharClass::BareText => c != '\n' && c != '\r' && c != '#' && c != '@' && c != '{',
        CharClass::NonWhitespace => !unicode_whitespace(c),
        CharClass::Whitespace => unicode_whitespace(c),
        CharClass::HexDigit => hex_digit_char(c),
    }
}

pub proof fn lemma_scan_bounds(s: Seq<char>, i: int, k: CharClass)
    requires
        0 <= i <= s.len(),
    ensures
        i <= scan(s, i, k) <= s.len(),
    decreases s.len() - i,
{
    if i < s.len() && in_class(k, s[i]) {
        lemma_scan_bounds(s, i + 1, k);
    }
}

proof fn lemma_scan_stop(s: Seq<char>, i: int, j: int, k: CharClass)
    requires
        0 <= i <= j <= s.len(),
        forall|m: int| i <= m < j ==> in_class(k, #[trigger] s[m]),
        j == s.len() || !in_class(k, s[j]),
    ensures
        scan(s, i, k) == j,
    decreases j - i,
{
    if i < j {
        lemma_scan_stop(s, i + 1, j, k);
    }
}

fn scan_exec(src: &Source, i: usize, k: CharClass) -> (j: usize)
    requires
        i <= src.s().len(),
    ensures
        j == scan(src.s(), i as int, k),
        i <= j <= src.s().len(),
{
    let mut j: usize = i;
    while j < src.chars.len() && class_test(k, src.chars[j])
        invariant
            i <= j <= src.s().len(),
            forall|m: int| i <= m < j ==> in_class(k, #[trigger] src.s()[m]),
        decreases src.chars.len() - j,
    {
        j += 1;
    }
    proof {
        lemma_scan_stop(src.s(), i as int, j as int, k);
    }
    j
}

fn find_pair_exec(src: &Source, i: usize, a: char, b: char) -> (r: Option<usize>)
    requires
        src.wf(),
        i <= src.s().len(),
    ensures
        match r {
            Some(k) => find_pair(src.s(), i as int, a, b) == Some(k as int) && i <= k && k + 2
                <= src.s().len(),
            None => find_pair(src.s(), i as int, a, b) is None,
        },
    decreases src.s().len() - i,
{
    if i + 1 >= src.chars.len() {
        None
    } else if src.chars[i] == a && src.chars[i + 1] == b {
        Some(i)
    } else {
        find_pair_exec(src, i + 1, a, b)
    }
}

// ---------------------------------------------------------------------
// Trivia
// ---------------------------------------------------------------------

fn read_trivia(src: &Source, i: usize) -> (r: Option<(usize, CstTrivia)>)
    requires
        src.wf(),
        i <= src.s().len(),
    ensures
        match r {
            Some((j, t)) => p_trivia(src.s(), i as int) == Some((j as int, t@)) && i < j
                <= src.s().len(),
            None => p_trivia(src.s(), i as int) is None,
        },
{
    if src.at(i, '/') && src.at(i + 1, '/') {
        let j = scan_exec(src, i + 2, CharClass::NotLineEnd);
        let t = CstTrivia::LineComment { content: src.text(i + 2, j), span: src.range(i, j) };
        return Some((j, t));
    }
    if src.at(i, '/') && src.at(i + 1, '*') {
        if let Some(k) = find_pair_exec(src, i + 2, '*', '/') {
            let t = CstTrivia::BlockComment {
                content: src.text(i + 2, k),
                span: src.range(i, k + 2),
            };
            return Some((k + 2, t));
        }
    }
    let j = scan_exec(src, i, CharClass::Multispace);
    if j > i {
        Some((j, CstTrivia::Whitespace { content: src.text(i, j), span: src.range(i, j) }))
    } else {
        None
    }
}

fn read_trivias(src: &Source, i: usize) -> (r: (usize, Vec<CstTrivia>))
    requires
        src.wf(),
        i <= src.s().len(),
    ensures
        p_trivias(src.s(), i as int) == (r.0 as int, trivia_view(r.1@)),
        i <= r.0 <= src.s().len(),
{
    let mut out: Vec<CstTrivia> = Vec::new();
    let mut cur = i;
    assert(trivia_view(out@) =~= Seq::<TriviaV>::empty());
    while cur < src.chars.len()
        invariant
            src.wf(),
            i <= cur <= src.s().len(),
            p_trivias_from(src.s(), cur as int, trivia_view(out@)) == p_trivias(src.s(), i as int),
        decreases src.s().len() - cur,
    {
        match read_trivia(src, cur) {
            Some((j, t)) => {
                let ghost before = trivia_view(out@);
                out.push(t);
                assert(trivia_view(out@) =~= before.push(t@));
                cur = j;
            },
            None => {
                return (cur, out);
            },
        }
    }
    proof {
        assert(p_trivia(src.s(), cur as int) is None);
    }
    (cur, out)
}

// ---------------------------------------------------------------------
// Identifiers and values
// ---------------------------------------------------------------------

fn read_identifier(src: &Source, i: usize) -> (r: Option<(usize, String)>)
    requires
        i <= src.s().len(),
    ensures
        match r {
            Some((j, name)) => p_identifier(src.s(), i as int) == Some((j as int, name@)) && i < j
                <= src.s().len(),
            None => p_identifier(src.s(), i as int) is None,
        },
{
    if i < src.chars.len() && (ascii_alpha(src.chars[i]) || src.chars[i] == '_') {
        let j = scan_exec(src, i + 1, CharClass::IdentChar);
        Some((j, src.text(i, j)))
    } else {
        None
    }
}

/// `find_char` stops at the first `c`.
pub proof fn lemma_find_char_stop_pub(t: Seq<char>, i: int, m: int, c: char)
    requires
        0 <= i <= m <= t.len(),
        forall|j: int| i <= j < m ==> #[trigger] t[j] != c,
        m == t.len() || t[m] == c,
    ensures
        find_char(t, i, c) == (if m < t.len() {
            Some(m)
        } else {
            None::<int>
        }),
{
    lemma_find_char_stop(t, i, m, c);
}

proof fn lemma_find_char_stop(t: Seq<char>, i: int, m: int, c: char)
    requires
        0 <= i <= m <= t.len(),
        forall|j: int| i <= j < m ==> #[trigger] t[j] != c,
        m == t.len() || t[m] == c,
    ensures
        find_char(t, i, c) == (if m < t.len() {
            Some(m)
        } else {
            None::<int>
        }),
    decreases m - i,
{
    if i < m {
        lemma_find_char_stop(t, i + 1, m, c);
    }
}

/// The pieces of `s[lo..hi]` between dots.
fn split_dots_exec(src: &Source, lo: usize, hi: usize) -> (r: Vec<String>)
    requires
        lo <= hi <= src.s().len(),
    ensures
        r@.map_values(|x: String| x@) == split_dots(src.s().subrange(lo as int, hi as int)),
{
    let ghost s = src.s();
    let mut out: Vec<String> = Vec::new();
    let mut cur = lo;
    assert(out@.map_values(|x: String| x@) + split_dots(s.subrange(cur as int, hi as int))
        =~= split_dots(s.subrange(lo as int, hi as int)));
    loop
        invariant
            lo <= cur <= hi <= s.len(),
            s == src.s(),
            out@.map_values(|x: String| x@) + split_dots(s.subrange(cur as int, hi as int))
                == split_dots(s.subrange(lo as int, hi as int)),
        decreases hi - cur,
    {
        let ghost rest = s.subrange(cur as int, hi as int);
        let mut k = cur;
        while k < hi && src.chars[k] != '.'
            invariant
                cur <= k <= hi <= s.len(),
                s == src.s(),
                forall|j: int| cur <= j < k ==> s[j] != '.',
            decreases hi - k,
        {
            k += 1;
        }
        proof {
            assert forall|j: int| 0 <= j < k - cur implies #[trigger] rest[j] != '.' by {
                assert(rest[j] == s[cur + j]);
            }
            lemma_find_char_stop(rest, 0, k - cur, '.');
        }
        let piece = src.text(cur, k);
        let ghost before = out@.map_values(|x: String| x@);
        out.push(piece);
        assert(out@.map_values(|x: String| x@) =~= before.push(piece@));
        if k == hi {
            assert(rest.subrange(0, k - cur) =~= rest);
            assert(split_dots(rest) == seq![rest]);
            assert(out@.map_values(|x: String| x@) =~= before + split_dots(rest));
            return out;
        }
        assert(rest.subrange(0, k - cur) =~= s.subrange(cur as int, k as int));
        assert(rest.subrange(k - cur + 1, rest.len() as int) =~= s.subrange(k + 1, hi as int));
        assert(split_dots(rest) == seq![s.subrange(cur as int, k as int)] + split_dots(
            s.subrange(k + 1, hi as int),
        ));
        assert(before + split_dots(rest) =~= out@.map_values(|x: String| x@) + split_dots(
            s.subrange(k + 1, hi as int),
        ));
        cur = k + 1;
    }
}

/// `s[lo..hi]`, an optional `-` then digits, as an `i64` (0 when it does
/// not fit).
fn parse_i64_exec(src: &Source, lo: usize, hi: usize) -> (r: i64)
    requires
        lo < hi <= src.s().len(),
        forall|j: int|
            lo <= j < hi ==> is_ascii_digit(#[trigger] src.s()[j]) || (j == lo && src.s()[j]
                == '-'),
    ensures
        r == parse_i64(src.s().subrange(lo as int, hi as int)),
{
    let ghost raw = src.s().subrange(lo as int, hi as int);
    let neg = src.chars[lo] == '-';
    let start = if neg {
        lo + 1
    } else {
        lo
    };
    let ghost digits = if neg {
        raw.drop_first()
    } else {
        raw
    };
    assert(digits =~= src.s().subrange(start as int, hi as int));
    let limit: u64 = 9_223_372_036_854_775_808;
    let mut acc: u64 = 0;
    let mut over = false;
    let mut k = start;
    assert(digits.take(0) =~= Seq::<char>::empty());
    while k < hi
        invariant
            lo <= start <= k <= hi <= src.s().len(),
            digits == src.s().subrange(start as int, hi as int),
            forall|j: int| start <= j < hi ==> is_ascii_digit(#[trigger] src.s()[j]),
            !over ==> acc == digits_value(digits.take(k - start)) && acc <= limit,
            over ==> digits_value(digits.take(k - start)) > limit,
            limit == 9_223_372_036_854_775_808u64,
        decreases hi - k,
    {
        let d = (src.chars[k] as u32 - '0' as u32) as u64;
        let ghost pre = digits.take(k - start);
        let ghost next = digits.take(k + 1 - start);
        assert(next.drop_last() =~= pre);
        assert(next.last() == src.s()[k as int]);
        assert(digits_value(next) == digits_value(pre) * 10 + d);
        if !over {
            if acc > (limit - d) / 10 {
                over = true;
            } else {
                acc = acc * 10 + d;
            }
        } else {
            assert(digits_value(next) >= digits_value(pre));
        }
        k += 1;
    }
    assert(digits.take(hi - start) =~= digits);
    if over {
        return 0;
    }
    let v: i128 = if neg {
        -(acc as i128)
    } else {
        acc as i128
    };
    if v >= -9_223_372_036_854_775_808i128 && v <= 9_223_372_036_854_775_807i128 {
        v as i64
    } else {
        0
    }
}

fn value_of(kind: CstValueKind, src: &Source, lo: usize, hi: usize, parsed: RValue) -> (r: CstValue)
    requires
        src.wf(),
        lo <= hi <= src.s().len(),
    ensures
        r@ == (CstValueV {
            kind,
            raw: src.s().subrange(lo as int, hi as int),
            parsed: parsed@,
            span: crate::span::span_range(src.s(), lo as int, hi as int),
        }),
{
    CstValue { kind, raw: src.text(lo, hi), parsed, span: src.range(lo, hi) }
}

fn read_string_value(src: &Source, i: usize) -> (r: Option<(usize, CstValue)>)
    requires
        src.wf(),
        i <= src.s().len(),
    ensures
        match r {
            Some((j, v)) => p_string_value(src.s(), i as int) == Some((j as int, v@)) && i < j
                <= src.s().len(),
            None => p_string_value(src.s(), i as int) is None,
        },
{
    if src.at(i, '"') || src.at(i, '\'') {
        let q = src.chars[i];
        let j = scan_exec(src, i + 1, CharClass::Not(q));
        if src.at(j, q) {
            let quote = if q == '"' {
                QuoteStyle::Double
            } else {
                QuoteStyle::Single
            };
            let parsed = RValue::Literal(Literal::String(src.text(i + 1, j)));
            return Some((j + 1, value_of(CstValueKind::String { quote }, src, i, j + 1, parsed)));
        }
    }
    None
}

fn read_template_value(src: &Source, i: usize) -> (r: Option<(usize, CstValue)>)
    requires
        src.wf(),
        i <= src.s().len(),
    ensures
        match r {
            Some((j, v)) => p_template_value(src.s(), i as int) == Some((j as int, v@)) && i < j
                <= src.s().len(),
            None => p_template_value(src.s(), i as int) is None,
        },
{
    if src.at(i, '`') {
        let j = scan_exec(src, i + 1, CharClass::Not('`'));
        if src.at(j, '`') {
            let parsed = RValue::Literal(Literal::String(src.text(i + 1, j)));
            return Some((j + 1, value_of(CstValueKind::TemplateString, src, i, j + 1, parsed)));
        }
    }
    None
}

fn read_number_value(src: &Source, i: usize, floats: &FloatTable) -> (r: Option<(usize, CstValue)>)
    requires
        src.wf(),
        i <= src.s().len(),
    ensures
        match r {
            Some((j, v)) => p_number_value(src.s(), i as int, float_table_view(floats@)) == Some(
                (j as int, v@),
            ) && i < j <= src.s().len(),
            None => p_number_value(src.s(), i as int, float_table_view(floats@)) is None,
        },
{
    let ghost s = src.s();
    let j0 = if src.at(i, '-') {
        i + 1
    } else {
        i
    };
    let d = scan_exec(src, j0, CharClass::Digit);
    if d == j0 || j0 >= src.chars.len() {
        return None;
    }
    let mut e = d;
    let mut has_dot = false;
    if src.at(d, '.') {
        let f = scan_exec(src, d + 1, CharClass::Digit);
        if f > d + 1 {
            e = f;
            has_dot = true;
        }
    }
    assert(number_end(s, i as int) == Some(e as int));
    let ghost raw = s.subrange(i as int, e as int);
    proof {
        assert forall|j: int| j0 <= j < d implies is_ascii_digit(#[trigger] s[j]) by {
            lemma_scan_prefix(s, j0 as int, j, CharClass::Digit);
        }
        if has_dot {
            assert forall|j: int| d + 1 <= j < e implies is_ascii_digit(#[trigger] s[j]) by {
                lemma_scan_prefix(s, d + 1, j, CharClass::Digit);
            }
            assert(raw[d - i] == '.');
            assert(raw.contains('.'));
        } else {
            assert forall|j: int| 0 <= j < raw.len() implies raw[j] != '.' by {
                assert(raw[j] == s[i + j]);
                if i + j >= j0 {
                    lemma_scan_prefix(s, j0 as int, i + j, CharClass::Digit);
                }
            }
            assert(!raw.contains('.'));
        }
    }
    if has_dot {
        let bits = float_bits(floats, src, i, e);
        let parsed = RValue::Literal(Literal::Float(bits));
        Some((e, value_of(CstValueKind::Float, src, i, e, parsed)))
    } else {
        proof {
            assert forall|j: int|
                i <= j < e implies is_ascii_digit(#[trigger] s[j]) || (j == i && s[j] == '-') by {
                if j >= j0 {
                    lemma_scan_prefix(s, j0 as int, j, CharClass::Digit);
                }
            }
        }
        let n = parse_i64_exec(src, i, e);
        let parsed = RValue::Literal(Literal::Integer(n));
        Some((e, value_of(CstValueKind::Integer, src, i, e, parsed)))
    }
}

pub proof fn lemma_scan_prefix(s: Seq<char>, i: int, j: int, k: CharClass)
    requires
        0 <= i <= j < scan(s, i, k),
    ensures
        in_class(k, s[j]),
    decreases j - i,
{
    if i < j {
        lemma_scan_prefix(s, i + 1, j, k);
    }
}

fn starts_with_chars(src: &Source, i: usize, t: &str) -> (r: bool)
    requires
        src.wf(),
        i <= src.s().len(),
    ensures
        r == starts(src.s(), i as int, t@),
{
    let v = crate::text::chars_of(t);
    if v.len() > src.chars.len() - i {
        return false;
    }
    let mut k: usize = 0;
    while k < v.len()
        invariant
            0 <= k <= v@.len(),
            v@ == t@,
            src.wf(),
            i + v@.len() <= src.s().len(),
            forall|j: int| 0 <= j < k ==> v@[j] == src.s()[i + j],
        decreases v.len() - k,
    {
        if v[k] != src.chars[i + k] {
            assert(src.s().subrange(i as int, i + v@.len())[k as int] != t@[k as int]);
            return false;
        }
        k += 1;
    }
    assert(src.s().subrange(i as int, i + v@.len()) =~= t@);
    true
}

fn read_boolean_value(src: &Source, i: usize) -> (r: Option<(usize, CstValue)>)
    requires
        src.wf(),
        i <= src.s().len(),
    ensures
        match r {
            Some((j, v)) => p_boolean_value(src.s(), i as int) == Some((j as int, v@)) && i < j
                <= src.s().len(),
            None => p_boolean_value(src.s(), i as int) is None,
        },
{
    proof {
        reveal_strlit("true");
        reveal_strlit("false");
    }
    if starts_with_chars(src, i, "true") {
        assert("true"@ =~= seq!['t', 'r', 'u', 'e']);
        let parsed = RValue::Literal(Literal::Boolean(true));
        return Some((i + 4, value_of(CstValueKind::Boolean, src, i, i + 4, parsed)));
    }
    assert("true"@ =~= seq!['t', 'r', 'u', 'e']);
    if starts_with_chars(src, i, "false") {
        assert("false"@ =~= seq!['f', 'a', 'l', 's', 'e']);
        let parsed = RValue::Literal(Literal::Boolean(false));
        return Some((i + 5, value_of(CstValueKind::Boolean, src, i, i + 5, parsed)));
    }
    assert("false"@ =~= seq!['f', 'a', 'l', 's', 'e']);
    None
}

fn read_variable_value(src: &Source, i: usize) -> (r: Option<(usize, CstValue)>)
    requires
        src.wf(),
        i <= src.s().len(),
    ensures
        match r {
            Some((j, v)) => p_variable_value(src.s(), i as int) == Some((j as int, v@)) && i < j
                <= src.s().len(),
            None => p_variable_value(src.s(), i as int) is None,
        },
{
    let j = scan_exec(src, i, CharClass::VariableChar);
    if j > i {
        let chain = split_dots_exec(src, i, j);
        let parsed = RValue::Variable(Variable { chain });
        Some((j, value_of(CstValueKind::Variable, src, i, j, parsed)))
    } else {
        None
    }
}

fn read_value(src: &Source, i: usize, floats: &FloatTable) -> (r: Option<(usize, CstValue)>)
    requires
        src.wf(),
        i <= src.s().len(),
    ensures
        match r {
            Some((j, v)) => p_value(src.s(), i as int, float_table_view(floats@)) == Some(
                (j as int, v@),
            ) && i < j <= src.s().len(),
            None => p_value(src.s(), i as int, float_table_view(floats@)) is None,
        },
{
    if let Some(r) = read_string_value(src, i) {
        return Some(r);
    }
    if let Some(r) = read_template_value(src, i) {
        return Some(r);
    }
    if let Some(r) = read_number_value(src, i, floats) {
        return Some(r);
    }
    if let Some(r) = read_boolean_value(src, i) {
        return Some(r);
    }
    read_variable_value(src, i)
}

// ---------------------------------------------------------------------
// Arguments, commands and system calls
// ---------------------------------------------------------------------

fn read_argument(src: &Source, i: usize, floats: &FloatTable) -> (r: Option<(usize, CstArgument)>)
    requires
        src.wf(),
        i <= src.s().len(),
    ensures
        match r {
            Some((j, a)) => p_argument(src.s(), i as int, float_table_view(floats@)) == Some(
                (j as int, a@),
            ) && i < j <= src.s().len(),
            None => p_argument(src.s(), i as int, float_table_view(floats@)) is None,
        },
{
    let (t, leading_trivia) = read_trivias(src, i);
    let (j, name) = match read_identifier(src, t) {
        Some(x) => x,
        None => {
            return None;
        },
    };
    let e = scan_exec(src, j, CharClass::SpaceTab);
    let mut end = j;
    let mut equals_token: Option<SpanInfo> = None;
    let mut value: Option<CstValue> = None;
    if src.at(e, '=') {
        let v0 = scan_exec(src, e + 1, CharClass::SpaceTab);
        if let Some((k, v)) = read_value(src, v0, floats) {
            end = k;
            equals_token = Some(
                SpanInfo {
                    start: 0,
                    end: 1,
                    start_line: 1,
                    start_column: 0,
                    end_line: 1,
                    end_column: 1,
                },
            );
            value = Some(v);
        }
    }
    let trailing_trivia: Vec<CstTrivia> = Vec::new();
    let a = CstArgument {
        name,
        name_span: src.range(t, j),
        equals_token,
        value,
        span: src.range(i, end),
        leading_trivia,
        trailing_trivia,
    };
    assert(trivia_view(a.trailing_trivia@) =~= Seq::<TriviaV>::empty());
    Some((end, a))
}

fn read_space_args(src: &Source, i: usize, floats: &FloatTable) -> (r: (usize, Vec<CstArgument>))
    requires
        src.wf(),
        i <= src.s().len(),
    ensures
        p_space_args_from(src.s(), i as int, float_table_view(floats@), Seq::empty()) == (
            r.0 as int,
            cst_arguments_view(r.1@),
        ),
        i <= r.0 <= src.s().len(),
{
    let ghost fl = float_table_view(floats@);
    let mut out: Vec<CstArgument> = Vec::new();
    let mut cur = i;
    assert(cst_arguments_view(out@) =~= Seq::<CstArgumentV>::empty());
    loop
        invariant
            src.wf(),
            i <= cur <= src.s().len(),
            fl == float_table_view(floats@),
            p_space_args_from(src.s(), cur as int, fl, cst_arguments_view(out@))
                == p_space_args_from(src.s(), i as int, fl, Seq::empty()),
        decreases src.s().len() - cur,
    {
        let a = scan_exec(src, cur, CharClass::SpaceTab);
        if a == cur {
            return (cur, out);
        }
        match read_argument(src, a, floats) {
            Some((j, arg)) => {
                let ghost before = cst_arguments_view(out@);
                out.push(arg);
                assert(cst_arguments_view(out@) =~= before.push(arg@));
                cur = j;
            },
            None => {
                return (cur, out);
            },
        }
    }
}

fn read_comma_args(src: &Source, i: usize, floats: &FloatTable) -> (r: (usize, Vec<CstArgument>))
    requires
        src.wf(),
        i <= src.s().len(),
    ensures
        p_comma_args(src.s(), i as int, float_table_view(floats@)) == (
            r.0 as int,
            cst_arguments_view(r.1@),
        ),
        i <= r.0 <= src.s().len(),
{
    let ghost fl = float_table_view(floats@);
    let mut out: Vec<CstArgument> = Vec::new();
    let mut cur = match read_argument(src, i, floats) {
        Some((j, arg)) => {
            out.push(arg);
            assert(cst_arguments_view(out@) =~= seq![arg@]);
            j
        },
        None => {
            assert(cst_arguments_view(out@) =~= Seq::<CstArgumentV>::empty());
            return (i, out);
        },
    };
    loop
        invariant
            src.wf(),
            i <= cur <= src.s().len(),
            fl == float_table_view(floats@),
            p_comma_args_from(src.s(), cur as int, fl, cst_arguments_view(out@)) == p_comma_args(
                src.s(),
                i as int,
                fl,
            ),
        decreases src.s().len() - cur,
    {
        let x = scan_exec(src, cur, CharClass::SpaceTab);
        if !src.at(x, ',') {
            return (cur, out);
        }
        let y = scan_exec(src, x + 1, CharClass::SpaceTab);
        match read_argument(src, y, floats) {
            Some((k, arg)) => {
                let ghost before = cst_arguments_view(out@);
                out.push(arg);
                assert(cst_arguments_view(out@) =~= before.push(arg@));
                cur = k;
            },
            None => {
                return (cur, out);
            },
        }
    }
}

fn read_call_args(src: &Source, i: usize, floats: &FloatTable) -> (r: (
    usize,
    Vec<CstArgument>,
    CommandSyntax,
))
    requires
        src.wf(),
        i <= src.s().len(),
    ensures
        p_call_args(src.s(), i as int, float_table_view(floats@)) == (
            r.0 as int,
            cst_arguments_view(r.1@),
            r.2,
        ),
        i <= r.0 <= src.s().len(),
{
    let a = scan_exec(src, i, CharClass::SpaceTab);
    if src.at(a, '(') {
        let b = scan_exec(src, a + 1, CharClass::SpaceTab);
        let (c, args) = read_comma_args(src, b, floats);
        let d = scan_exec(src, c, CharClass::SpaceTab);
        if src.at(d, ')') {
            let syntax = CommandSyntax::Parenthesized {
                open_paren: src.token(a, 1),
                close_paren: src.token(d, 1),
            };
            return (d + 1, args, syntax);
        }
    }
    let (j, args) = read_space_args(src, i, floats);
    (j, args, CommandSyntax::SpaceSeparated)
}

fn read_command(src: &Source, i: usize, floats: &FloatTable) -> (r: Option<(usize, CstCommand)>)
    requires
        src.wf(),
        i <= src.s().len(),
    ensures
        match r {
            Some((j, c)) => p_call(src.s(), i as int, float_table_view(floats@), '@') == Some(
                (j as int, c@),
            ) && i < j <= src.s().len(),
            None => p_call(src.s(), i as int, float_table_view(floats@), '@') is None,
        },
{
    let (t, leading_trivia) = read_trivias(src, i);
    if !src.at(t, '@') {
        return None;
    }
    let (j, command) = match read_identifier(src, t + 1) {
        Some(x) => x,
        None => {
            return None;
        },
    };
    let (k, arguments, syntax) = read_call_args(src, j, floats);
    let c = CstCommand {
        command,
        at_token: src.token(t, 1),
        name_span: src.range(t + 1, j),
        arguments,
        syntax,
        span: src.range(i, k),
        leading_trivia,
    };
    Some((k, c))
}

fn read_system_call(src: &Source, i: usize, floats: &FloatTable) -> (r: Option<
    (usize, CstSystemCall),
>)
    requires
        src.wf(),
        i <= src.s().len(),
    ensures
        match r {
            Some((j, c)) => p_call(src.s(), i as int, float_table_view(floats@), '#') == Some(
                (j as int, c@),
            ) && i < j <= src.s().len(),
            None => p_call(src.s(), i as int, float_table_view(floats@), '#') is None,
        },
{
    let (t, leading_trivia) = read_trivias(src, i);
    if !src.at(t, '#') {
        return None;
    }
    let (j, command) = match read_identifier(src, t + 1) {
        Some(x) => x,
        None => {
            return None;
        },
    };
    let (k, arguments, syntax) = read_call_args(src, j, floats);
    let c = CstSystemCall {
        command,
        hash_token: src.token(t, 1),
        name_span: src.range(t + 1, j),
        arguments,
        syntax,
        span: src.range(i, k),
        leading_trivia,
    };
    Some((k, c))
}

// ---------------------------------------------------------------------
// Attributes
// ---------------------------------------------------------------------

fn read_attribute(src: &Source, i: usize) -> (r: Option<(usize, CstAttribute)>)
    requires
        src.wf(),
        i <= src.s().len(),
    ensures
        match r {
            Some((j, a)) => p_attribute(src.s(), i as int) == Some((j as int, a@)) && i < j
                <= src.s().len(),
            None => p_attribute(src.s(), i as int) is None,
        },
{
    let ghost s = src.s();
    let (t, leading_trivia) = read_trivias(src, i);
    if !(src.at(t, '#') && src.at(t + 1, '[')) {
        return None;
    }
    let a = scan_exec(src, t + 2, CharClass::SpaceTab);
    let (b, keyword) = match read_identifier(src, a) {
        Some(x) => x,
        None => {
            return None;
        },
    };
    let c = scan_exec(src, b, CharClass::SpaceTab);
    let mut p = c;
    let mut condition: Option<String> = None;
    let mut condition_span: Option<SpanInfo> = None;
    if src.at(c, '(') {
        let d = scan_exec(src, c + 1, CharClass::SpaceTab);
        if !(src.at(d, '"') || src.at(d, '\'')) {
            return None;
        }
        let q = src.chars[d];
        let e = scan_exec(src, d + 1, CharClass::Not(q));
        if !src.at(e, q) {
            return None;
        }
        let f = scan_exec(src, e + 1, CharClass::SpaceTab);
        if !src.at(f, ')') {
            return None;
        }
        assert(p_attribute_condition(s, c as int) == Some(
            ((f + 1) as int, s.subrange(d + 1, e as int), crate::span::span_range(s, d as int, e + 1)),
        ));
        p = f + 1;
        condition = Some(src.text(d + 1, e));
        condition_span = Some(src.range(d, e + 1));
    }
    let g = scan_exec(src, p, CharClass::SpaceTab);
    if !src.at(g, ']') {
        return None;
    }
    let attr = CstAttribute {
        keyword,
        keyword_span: src.range(a, b),
        condition,
        condition_span,
        open_token: src.token(t, 2),
        close_token: src.token(g, 1),
        span: src.range(i, g + 1),
        leading_trivia,
    };
    Some((g + 1, attr))
}

// ---------------------------------------------------------------------
// Parameters
// ---------------------------------------------------------------------

fn read_parameter(src: &Source, i: usize, floats: &FloatTable) -> (r: Option<(usize, CstParameter)>)
    requires
        src.wf(),
        i <= src.s().len(),
    ensures
        match r {
            Some((j, p)) => p_parameter(src.s(), i as int, float_table_view(floats@)) == Some(
                (j as int, p@),
            ) && i < j <= src.s().len(),
            None => p_parameter(src.s(), i as int, float_table_view(floats@)) is None,
        },
{
    let (t, leading_trivia) = read_trivias(src, i);
    let (j, name) = match read_identifier(src, t) {
        Some(x) => x,
        None => {
            return None;
        },
    };
    let e = scan_exec(src, j, CharClass::SpaceTab);
    let mut m = j;
    let mut equals_token: Option<SpanInfo> = None;
    let mut default_value: Option<CstValue> = None;
    if src.at(e, '=') {
        let v0 = scan_exec(src, e + 1, CharClass::SpaceTab);
        if let Some((k, v)) = read_value(src, v0, floats) {
            m = k;
            equals_token = Some(src.token(e, 1));
            default_value = Some(v);
        }
    }
    let (end, trailing_trivia) = read_trivias(src, m);
    let p = CstParameter {
        name,
        name_span: src.range(t, j),
        equals_token,
        default_value,
        span: src.range(i, end),
        leading_trivia,
        trailing_trivia,
    };
    Some((end, p))
}

fn read_parameters(src: &Source, i: usize, floats: &FloatTable) -> (r: Option<
    (usize, SpanInfo, Vec<CstParameter>, SpanInfo),
>)
    requires
        src.wf(),
        i <= src.s().len(),
    ensures
        match r {
            Some((j, o, ps, c)) => p_parameters(src.s(), i as int, float_table_view(floats@))
                == Some((j as int, o, cst_parameters_view(ps@), c)) && i < j <= src.s().len(),
            None => p_parameters(src.s(), i as int, float_table_view(floats@)) is None,
        },
{
    let ghost fl = float_table_view(floats@);
    let ghost s = src.s();
    let a = scan_exec(src, i, CharClass::SpaceTab);
    if !src.at(a, '(') {
        return None;
    }
    let b = scan_exec(src, a + 1, CharClass::SpaceTab);
    let mut out: Vec<CstParameter> = Vec::new();
    let mut cur = b;
    let ghost target = match p_parameter(s, b as int, fl) {
        Some((j, p)) => p_comma_params_from(s, j, fl, seq![p]),
        None => (b as int, Seq::<CstParameterV>::empty()),
    };
    match read_parameter(src, b, floats) {
        Some((j, p)) => {
            out.push(p);
            assert(cst_parameters_view(out@) =~= seq![p@]);
            cur = j;
            loop
                invariant
                    src.wf(),
                    s == src.s(),
                    b <= cur <= s.len(),
                    fl == float_table_view(floats@),
                    p_comma_params_from(s, cur as int, fl, cst_parameters_view(out@)) == target,
                ensures
                    b <= cur <= s.len(),
                    target == (cur as int, cst_parameters_view(out@)),
                decreases s.len() - cur,
            {
                let x = scan_exec(src, cur, CharClass::SpaceTab);
                if !src.at(x, ',') {
                    break;
                }
                let y = scan_exec(src, x + 1, CharClass::SpaceTab);
                match read_parameter(src, y, floats) {
                    Some((k, p)) => {
                        let ghost before = cst_parameters_view(out@);
                        out.push(p);
                        assert(cst_parameters_view(out@) =~= before.push(p@));
                        cur = k;
                    },
                    None => {
                        break;
                    },
                }
            }
        },
        None => {
            assert(cst_parameters_view(out@) =~= Seq::<CstParameterV>::empty());
        },
    }
    assert(target == (cur as int, cst_parameters_view(out@)));
    let d = scan_exec(src, cur, CharClass::SpaceTab);
    if !src.at(d, ')') {
        return None;
    }
    Some((d + 1, src.token(a, 1), out, src.token(d, 1)))
}

// ---------------------------------------------------------------------
// Escapes, template strings and quoted strings
// ---------------------------------------------------------------------

/// `char::from_u32`: std documents that it gives the character with the
/// code point `v`, or `None` for a surrogate or a value above `0x10FFFF`.
#[verifier::external_body]
fn char_from_u32(v: u32) -> (r: Option<char>)
    ensures
        is_char_code(v as nat) ==> r == Some(v as char),
        !is_char_code(v as nat) ==> r is None,
{
    char::from_u32(v)
}

fn escaped_exec(c: char) -> (r: char)
    ensures
        r == escaped(c),
{
    if c == 'n' {
        '\n'
    } else if c == 't' {
        '\t'
    } else if c == 'r' {
        '\r'
    } else {
        c
    }
}

fn read_template_text(src: &Source, i: usize) -> (r: (usize, String))
    requires
        src.wf(),
        i <= src.s().len(),
    ensures
        template_text(src.s(), i as int, Seq::empty()) == (r.0 as int, r.1@),
        i <= r.0 <= src.s().len(),
{
    let ghost s = src.s();
    let mut text = String::new();
    let mut k = i;
    while k < src.chars.len() && src.chars[k] != '`' && !(src.chars[k] == '$' && src.at(k + 1, '{'))
        invariant
            src.wf(),
            s == src.s(),
            i <= k <= s.len(),
            template_text(s, k as int, text@) == template_text(s, i as int, Seq::empty()),
        decreases s.len() - k,
    {
        if src.chars[k] == '\\' && k + 1 < src.chars.len() {
            crate::text::push_char(&mut text, escaped_exec(src.chars[k + 1]));
            k += 2;
        } else {
            crate::text::push_char(&mut text, src.chars[k]);
            k += 1;
        }
    }
    (k, text)
}

fn hex_value_exec(c: char) -> (r: u32)
    requires
        is_hex_digit(c),
    ensures
        r == hex_value_of(c),
        r < 16,
{
    if '0' <= c && c <= '9' {
        (c as u32) - ('0' as u32)
    } else if 'a' <= c && c <= 'f' {
        (c as u32) - ('a' as u32) + 10
    } else {
        (c as u32) - ('A' as u32) + 10
    }
}

/// The value of the hex digits `s[lo..hi]`, or `None` above `u32::MAX`.
fn hex_digits_exec(src: &Source, lo: usize, hi: usize) -> (r: Option<u32>)
    requires
        lo <= hi <= src.s().len(),
        forall|j: int| lo <= j < hi ==> is_hex_digit(#[trigger] src.s()[j]),
    ensures
        match r {
            Some(v) => v == hex_digits_value(src.s().subrange(lo as int, hi as int)),
            None => hex_digits_value(src.s().subrange(lo as int, hi as int)) > u32::MAX,
        },
{
    let ghost d = src.s().subrange(lo as int, hi as int);
    let mut acc: u64 = 0;
    let mut k = lo;
    assert(d.take(0) =~= Seq::<char>::empty());
    while k < hi
        invariant
            lo <= k <= hi <= src.s().len(),
            d == src.s().subrange(lo as int, hi as int),
            forall|j: int| lo <= j < hi ==> is_hex_digit(#[trigger] src.s()[j]),
            acc == hex_digits_value(d.take(k - lo)),
            acc <= u32::MAX,
        decreases hi - k,
    {
        let v = hex_value_exec(src.chars[k]) as u64;
        let ghost pre = d.take(k - lo);
        let ghost next = d.take(k + 1 - lo);
        assert(next.drop_last() =~= pre);
        assert(next.last() == src.s()[k as int]);
        let n = acc * 16 + v;
        if n > 0xffff_ffff {
            proof {
                lemma_hex_value_grows(d, k + 1 - lo);
            }
            return None;
        }
        acc = n;
        k += 1;
    }
    assert(d.take(hi - lo) =~= d);
    Some(acc as u32)
}

proof fn lemma_hex_value_grows(d: Seq<char>, n: int)
    requires
        0 <= n <= d.len(),
    ensures
        hex_digits_value(d) >= hex_digits_value(d.take(n)),
    decreases d.len() - n,
{
    if n < d.len() {
        lemma_hex_value_grows(d, n + 1);
        assert(d.take(n + 1).drop_last() =~= d.take(n));
    } else {
        assert(d.take(n) =~= d);
    }
}

fn read_unicode_escape(src: &Source, k: usize) -> (r: Option<(usize, char)>)
    requires
        src.wf(),
        k <= src.s().len(),
    ensures
        match r {
            Some((j, c)) => unicode_escape(src.s(), k as int) == Some((j as int, c)) && k < j
                <= src.s().len(),
            None => unicode_escape(src.s(), k as int) is None,
        },
{
    let ghost s = src.s();
    if src.at(k, '{') {
        let m = scan_exec(src, k + 1, CharClass::HexDigit);
        if m > k + 1 && src.at(m, '}') {
            proof {
                assert forall|j: int| k + 1 <= j < m implies is_hex_digit(#[trigger] s[j]) by {
                    lemma_scan_prefix(s, k + 1, j, CharClass::HexDigit);
                }
            }
            match hex_digits_exec(src, k + 1, m) {
                Some(v) => {
                    match char_from_u32(v) {
                        Some(c) => {
                            return Some((m + 1, c));
                        },
                        None => {
                            return None;
                        },
                    }
                },
                None => {
                    return None;
                },
            }
        }
        return None;
    }
    if k + 4 <= src.chars.len() {
        let m = scan_exec(src, k, CharClass::HexDigit);
        if m >= k + 4 {
            proof {
                assert forall|j: int| k <= j < k + 4 implies is_hex_digit(#[trigger] s[j]) by {
                    lemma_scan_prefix(s, k as int, j, CharClass::HexDigit);
                }
            }
            match hex_digits_exec(src, k, k + 4) {
                Some(v) => {
                    match char_from_u32(v) {
                        Some(c) => {
                            return Some((k + 4, c));
                        },
                        None => {
                            return None;
                        },
                    }
                },
                None => {
                    return None;
                },
            }
        }
    }
    None
}

fn read_quoted(src: &Source, i: usize) -> (r: Option<(usize, String)>)
    requires
        src.wf(),
        i <= src.s().len(),
    ensures
        match r {
            Some((j, text)) => p_quoted(src.s(), i as int) == Some((j as int, text@)) && i < j
                <= src.s().len(),
            None => p_quoted(src.s(), i as int) is None,
        },
{
    let ghost s = src.s();
    if !(src.at(i, '"') || src.at(i, '\'')) {
        return None;
    }
    let q = src.chars[i];
    let mut text = String::new();
    let mut k = i + 1;
    while k < src.chars.len()
        invariant
            src.wf(),
            s == src.s(),
            i < k <= s.len(),
            q == s[i as int],
            quoted_body(s, k as int, q, text@) == p_quoted(s, i as int),
        decreases s.len() - k,
    {
        let c = src.chars[k];
        if c == q {
            return Some((k + 1, text));
        }
        if c == '\\' && k + 1 < src.chars.len() {
            if src.chars[k + 1] == 'u' {
                match read_unicode_escape(src, k + 2) {
                    Some((j, ch)) => {
                        crate::text::push_char(&mut text, ch);
                        k = j;
                    },
                    None => {
                        return None;
                    },
                }
            } else {
                crate::text::push_char(&mut text, escaped_exec(src.chars[k + 1]));
                k += 2;
            }
        } else {
            crate::text::push_char(&mut text, c);
            k += 1;
        }
    }
    None
}

fn read_template_literal(src: &Source, i: usize) -> (r: Option<(usize, CstTemplateLiteral)>)
    requires
        src.wf(),
        i <= src.s().len(),
    ensures
        match r {
            Some((j, t)) => p_template_literal(src.s(), i as int) == Some((j as int, t@)) && i < j
                <= src.s().len(),
            None => p_template_literal(src.s(), i as int) is None,
        },
{
    let ghost s = src.s();
    if !src.at(i, '`') {
        return None;
    }
    let mut parts: Vec<CstTemplatePart> = Vec::new();
    let mut k = i + 1;
    assert(template_parts_view(parts@) =~= Seq::<CstTemplatePartV>::empty());
    while k < src.chars.len() && src.chars[k] != '`'
        invariant
            src.wf(),
            s == src.s(),
            i < k <= s.len(),
            p_template_parts(s, k as int, template_parts_view(parts@)) == p_template_parts(
                s,
                i + 1,
                Seq::empty(),
            ),
        decreases s.len() - k,
    {
        let ghost before = template_parts_view(parts@);
        if src.chars[k] == '$' && src.at(k + 1, '{') {
            match read_identifier(src, k + 2) {
                Some((j, name)) => {
                    if !src.at(j, '}') {
                        return None;
                    }
                    let ghost nv = name@;
                    let mut chain: Vec<String> = Vec::new();
                    chain.push(name);
                    let variable = Variable { chain };
                    assert(variable@ =~= seq![nv]);
                    let part = CstTemplatePart::Value {
                        open_token: src.token(k, 2),
                        variable,
                        variable_span: src.range(k + 2, j),
                        close_token: src.token(j, 1),
                        span: src.range(k, j + 1),
                    };
                    parts.push(part);
                    assert(template_parts_view(parts@) =~= before.push(part@));
                    k = j + 1;
                },
                None => {
                    return None;
                },
            }
        } else {
            let (j, content) = read_template_text(src, k);
            if j <= k {
                return None;
            }
            let part = CstTemplatePart::Text { content, span: src.range(k, j) };
            parts.push(part);
            assert(template_parts_view(parts@) =~= before.push(part@));
            k = j;
        }
    }
    if k >= src.chars.len() {
        return None;
    }
    let t = CstTemplateLiteral { parts, span: src.range(i, k + 1) };
    Some((k + 1, t))
}

// ---------------------------------------------------------------------
// Text lines
// ---------------------------------------------------------------------

/// The bounds of `s[lo..hi]` once trimmed at both ends.
fn trim_range(src: &Source, lo: usize, hi: usize) -> (r: (usize, usize))
    requires
        lo <= hi <= src.s().len(),
    ensures
        lo <= r.0 <= r.1 <= hi,
        trim(src.s().subrange(lo as int, hi as int)) == src.s().subrange(r.0 as int, r.1 as int),
{
    let ghost s = src.s();
    let a = skip_ws_forward(&src.chars, lo, hi);
    let b = skip_ws_backward(&src.chars, a, hi);
    proof {
        let x = s.subrange(lo as int, hi as int);
        assert(x.skip(a - lo) =~= s.subrange(a as int, hi as int));
        let t = s.subrange(a as int, hi as int);
        assert(t.take(t.len() - (hi - b)) =~= s.subrange(a as int, b as int));
    }
    (a, b)
}

/// The end of `s[lo..hi]` once trimmed at its end.
fn trim_end_range(src: &Source, lo: usize, hi: usize) -> (r: usize)
    requires
        lo <= hi <= src.s().len(),
    ensures
        lo <= r <= hi,
        trim_end(src.s().subrange(lo as int, hi as int)) == src.s().subrange(lo as int, r as int),
{
    let b = skip_ws_backward(&src.chars, lo, hi);
    proof {
        let t = src.s().subrange(lo as int, hi as int);
        assert(t.take(t.len() - (hi - b)) =~= src.s().subrange(lo as int, b as int));
    }
    b
}

fn read_leading_text(src: &Source, i: usize) -> (r: Option<(usize, CstLeadingText)>)
    requires
        src.wf(),
        i <= src.s().len(),
    ensures
        match r {
            Some((j, l)) => p_leading_text(src.s(), i as int) == Some((j as int, l@)) && i < j
                <= src.s().len(),
            None => p_leading_text(src.s(), i as int) is None,
        },
{
    if !src.at(i, '[') {
        return None;
    }
    let a = scan_exec(src, i + 1, CharClass::SpaceTab);
    let (c, content) = match read_template_literal(src, a) {
        Some((j, t)) => (j, CstLeadingTextContent::Template(t)),
        None => match read_quoted(src, a) {
            Some((j, text)) => (j, CstLeadingTextContent::Text(text)),
            None => {
                let j = scan_exec(src, a, CharClass::LeadingBare);
                let (lo, hi) = trim_range(src, a, j);
                (j, CstLeadingTextContent::Text(src.text(lo, hi)))
            },
        },
    };
    let b = scan_exec(src, c, CharClass::SpaceTab);
    if !src.at(b, ']') {
        return None;
    }
    let l = CstLeadingText {
        open_bracket: src.token(i, 1),
        content,
        close_bracket: src.token(b, 1),
        span: src.range(i, b + 1),
    };
    Some((b + 1, l))
}

fn read_text(src: &Source, i: usize) -> (r: Option<(usize, CstText)>)
    requires
        src.wf(),
        i <= src.s().len(),
    ensures
        match r {
            Some((j, t)) => p_text(src.s(), i as int) == Some((j as int, t@)) && i < j
                <= src.s().len(),
            None => p_text(src.s(), i as int) is None,
        },
{
    if let Some((j, t)) = read_template_literal(src, i) {
        let x = CstText {
            kind: CstTextKind::Template(t),
            raw: src.text(i, j),
            parsed: String::new(),
            span: src.range(i, j),
        };
        return Some((j, x));
    }
    if let Some((j, text)) = read_quoted(src, i) {
        let quote = if src.chars[i] == '"' {
            QuoteStyle::Double
        } else {
            QuoteStyle::Single
        };
        let x = CstText {
            kind: CstTextKind::Quoted(quote),
            raw: src.text(i, j),
            parsed: text,
            span: src.range(i, j),
        };
        return Some((j, x));
    }
    let j = scan_exec(src, i, CharClass::BareText);
    if j > i {
        let e = trim_end_range(src, i, j);
        let x = CstText {
            kind: CstTextKind::Bare,
            raw: src.text(i, e),
            parsed: src.text(i, e),
            span: src.range(i, j),
        };
        Some((j, x))
    } else {
        None
    }
}

fn read_tailing(src: &Source, i: usize) -> (r: Option<(usize, CstTailingText)>)
    requires
        src.wf(),
        i <= src.s().len(),
    ensures
        match r {
            Some((j, t)) => p_tailing(src.s(), i as int) == Some((j as int, t@)) && i < j
                <= src.s().len(),
            None => p_tailing(src.s(), i as int) is None,
        },
{
    if !src.at(i, '#') {
        return None;
    }
    let j = scan_exec(src, i + 1, CharClass::NonWhitespace);
    if j > i + 1 {
        let t = CstTailingText {
            hash_token: src.token(i, 1),
            marker: src.text(i + 1, j),
            marker_span: src.range(i + 1, j),
            span: src.range(i, j),
        };
        Some((j, t))
    } else {
        None
    }
}

fn read_text_line(src: &Source, i: usize) -> (r: Option<(usize, CstTextLine)>)
    requires
        src.wf(),
        i <= src.s().len(),
    ensures
        match r {
            Some((j, t)) => p_text_line(src.s(), i as int) == Some((j as int, t@)) && i <= j
                <= src.s().len(),
            None => p_text_line(src.s(), i as int) is None,
        },
{
    let (t, leading_trivia) = read_trivias(src, i);
    let f = scan_exec(src, t, CharClass::Whitespace);
    if src.at(f, '@') || src.at(f, '#') || src.at(f, '{') || src.at(f, '}') || src.at(f, ':') {
        return None;
    }
    let (a, leading) = match read_leading_text(src, t) {
        Some((a, l)) => (a, Some(l)),
        None => (t, None),
    };
    let b = scan_exec(src, a, CharClass::SpaceTab);
    let (c, text) = match read_text(src, b) {
        Some((c, x)) => (c, Some(x)),
        None => (b, None),
    };
    let d = scan_exec(src, c, CharClass::SpaceTab);
    let (e, tailing) = match read_tailing(src, d) {
        Some((e, g)) => (e, Some(g)),
        None => (d, None),
    };
    let line = CstTextLine { leading, text, tailing, span: src.range(i, e), leading_trivia };
    Some((e, line))
}

// ---------------------------------------------------------------------
// Embedded code
// ---------------------------------------------------------------------

fn read_embedded_code(src: &Source, i: usize) -> (r: Option<(usize, CstEmbeddedCode)>)
    requires
        src.wf(),
        i <= src.s().len(),
    ensures
        match r {
            Some((j, c)) => p_embedded_code(src.s(), i as int) == Some((j as int, c@)) && i < j
                <= src.s().len(),
            None => p_embedded_code(src.s(), i as int) is None,
        },
{
    let ghost s = src.s();
    if src.at(i, '@') && src.at(i + 1, '{') {
        let mut depth: usize = 1;
        let mut k = i + 2;
        while depth > 0 && k < src.chars.len()
            invariant
                src.wf(),
                s == src.s(),
                i + 2 <= k <= s.len(),
                depth <= k,
                k == i + 2 ==> depth == 1,
                brace_close(s, k as int, depth as nat) == brace_close(s, i + 2, 1),
            decreases s.len() - k,
        {
            if src.chars[k] == '{' {
                depth += 1;
            } else if src.chars[k] == '}' {
                depth -= 1;
            }
            k += 1;
        }
        if depth == 0 {
            let c = CstEmbeddedCode {
                syntax: EmbeddedCodeSyntax::Brace,
                code: src.text(i + 2, k - 1),
                span: src.range(i, k),
            };
            return Some((k, c));
        }
    }
    if src.at(i, '#') && src.at(i + 1, '#') {
        let a = scan_exec(src, i + 2, CharClass::SpaceTab);
        let b = if src.at(a, '\r') && src.at(a + 1, '\n') {
            a + 2
        } else if src.at(a, '\n') {
            a + 1
        } else {
            a
        };
        let mut m = b;
        loop
            invariant
                src.wf(),
                s == src.s(),
                b <= m <= s.len(),
                at(s, i as int, '#') && at(s, i + 1, '#'),
                i + 2 <= a <= b,
                a == scan(s, i + 2, CharClass::SpaceTab),
                b == (if at(s, a as int, '\r') && at(s, a + 1, '\n') {
                    a + 2
                } else if at(s, a as int, '\n') {
                    a + 1
                } else {
                    a as int
                }),
                hash_close(s, m as int) == hash_close(s, b as int),
            decreases s.len() - m,
        {
            let w = scan_exec(src, m, CharClass::SpaceTab);
            if src.at(w, '#') && src.at(w + 1, '#') {
                let c = CstEmbeddedCode {
                    syntax: EmbeddedCodeSyntax::Hash,
                    code: src.text(b, m),
                    span: src.range(i, w + 2),
                };
                return Some((w + 2, c));
            }
            if m >= src.chars.len() {
                return None;
            }
            m += 1;
        }
    }
    None
}

// ---------------------------------------------------------------------
// Blocks, paragraphs and files
// ---------------------------------------------------------------------

pub proof fn lemma_byte_offset_range(s: Seq<char>, a: int, b: int)
    requires
        0 <= a <= b <= s.len(),
    ensures
        byte_offset(s, b) - byte_offset(s, a) == utf8_len_seq(s.subrange(a, b)),
    decreases b - a,
{
    if a < b {
        lemma_byte_offset_range(s, a, b - 1);
        assert(s.subrange(a, b).drop_last() =~= s.subrange(a, b - 1));
    } else {
        assert(s.subrange(a, b) =~= Seq::<char>::empty());
    }
}

fn find_char_exec(src: &Source, i: usize, c: char) -> (r: Option<usize>)
    requires
        i <= src.s().len(),
    ensures
        match r {
            Some(k) => find_char(src.s(), i as int, c) == Some(k as int) && i <= k < src.s().len(),
            None => find_char(src.s(), i as int, c) is None,
        },
{
    let mut k = i;
    while k < src.chars.len() && src.chars[k] != c
        invariant
            i <= k <= src.s().len(),
            forall|j: int| i <= j < k ==> #[trigger] src.s()[j] != c,
        decreases src.s().len() - k,
    {
        k += 1;
    }
    proof {
        lemma_find_char_stop(src.s(), i as int, k as int, c);
    }
    if k < src.chars.len() {
        Some(k)
    } else {
        None
    }
}

/// The node for a line at `i` that cannot be read, and where reading
/// goes on (`None` where it would get stuck).
fn read_error_line(src: &Source, i: usize, message: &str) -> (r: Option<(usize, CstNode)>)
    requires
        src.wf(),
        i <= src.s().len(),
    ensures
        match r {
            Some((j, n)) => error_line(src.s(), i as int, message@) == Some((j as int, n@)) && i
                <= j <= src.s().len(),
            None => error_line(src.s(), i as int, message@) is None,
        },
{
    let ghost s = src.s();
    let nl = find_char_exec(src, i, '\n');
    let end = match nl {
        Some(k) => k,
        None => src.chars.len(),
    };
    proof {
        lemma_byte_offset_range(s, i as int, end as int);
        crate::span::lemma_positions_bounded(s, end as int);
        crate::span::lemma_positions_bounded(s, i as int);
    }
    let bytes = src.positions.offset[end] - src.positions.offset[i];
    let skip = match nl {
        Some(_) => bytes + 1,
        None => bytes,
    };
    if skip > src.chars.len() - i {
        return None;
    }
    let j = i + skip;
    let n = CstNode::Error {
        content: src.text(i, end),
        span: src.range(i, j),
        message: message.to_owned(),
    };
    Some((j, n))
}

/// What the reader does at a position inside a block.
enum BlockStep {
    End(usize, Vec<CstTrivia>),
    Node(usize, CstNode),
    Skip,
    Stuck,
}

fn read_block_step(src: &Source, i: usize, floats: &FloatTable) -> (r: BlockStep)
    requires
        src.wf(),
        i < src.s().len(),
    ensures
        match r {
            BlockStep::End(j, ts) => block_step(src.s(), i as int, float_table_view(floats@))
                == BlockStepV::End(j as int, trivia_view(ts@)) && i <= j <= src.s().len(),
            BlockStep::Node(j, n) => block_step(src.s(), i as int, float_table_view(floats@))
                == BlockStepV::Node(j as int, n@) && j <= src.s().len(),
            BlockStep::Skip => block_step(src.s(), i as int, float_table_view(floats@))
                == BlockStepV::Skip,
            BlockStep::Stuck => block_step(src.s(), i as int, float_table_view(floats@))
                == BlockStepV::Stuck,
        },
    decreases src.s().len() - i, 1nat,
{
    let f = scan_exec(src, i, CharClass::Whitespace);
    if f >= src.chars.len() || src.chars[f] == '}' {
        let (j, ts) = read_trivias(src, i);
        return BlockStep::End(j, ts);
    }
    if let Some((j, t)) = read_trivia(src, i) {
        return BlockStep::Node(j, CstNode::Trivia(t));
    }
    if let Some((j, c)) = read_embedded_code(src, i) {
        return BlockStep::Node(j, CstNode::EmbeddedCode(c));
    }
    let (blk, stuck) = read_block(src, i, floats);
    if stuck {
        return BlockStep::Stuck;
    }
    if let Some((j, b)) = blk {
        return BlockStep::Node(j, CstNode::Block(b));
    }
    read_line_step(src, i, f, floats)
}

#[verifier::rlimit(30)]
fn read_line_step(src: &Source, i: usize, f: usize, floats: &FloatTable) -> (r: BlockStep)
    requires
        src.wf(),
        i <= f < src.s().len(),
    ensures
        match r {
            BlockStep::End(j, ts) => false,
            BlockStep::Node(j, n) => line_step(src.s(), i as int, f as int, float_table_view(floats@))
                == BlockStepV::Node(j as int, n@) && j <= src.s().len(),
            BlockStep::Skip => line_step(src.s(), i as int, f as int, float_table_view(floats@))
                == BlockStepV::Skip,
            BlockStep::Stuck => line_step(src.s(), i as int, f as int, float_table_view(floats@))
                == BlockStepV::Stuck,
        },
{
    let looks_like_attribute = src.at(f, '#') && src.at(f + 1, '[');
    let looks_like_command = src.at(f, '@') && !src.at(f + 1, '{');
    let looks_like_system_call = src.at(f, '#') && !looks_like_attribute;
    if looks_like_attribute {
        if let Some((j, a)) = read_attribute(src, i) {
            return BlockStep::Node(j, CstNode::Attribute(a));
        }
    }
    if looks_like_command {
        if let Some((j, c)) = read_command(src, i, floats) {
            return BlockStep::Node(j, CstNode::Command(c));
        }
        proof {
            reveal_strlit("Invalid command syntax: Tag");
            assert("Invalid command syntax: Tag"@ =~= command_error_message());
        }
        return match read_error_line(src, i, "Invalid command syntax: Tag") {
            Some((j, n)) => BlockStep::Node(j, n),
            None => BlockStep::Stuck,
        };
    }
    if looks_like_system_call {
        if let Some((j, c)) = read_system_call(src, i, floats) {
            return BlockStep::Node(j, CstNode::SystemCall(c));
        }
        proof {
            reveal_strlit("Invalid system call syntax: Tag");
            assert("Invalid system call syntax: Tag"@ =~= system_call_error_message());
        }
        return match read_error_line(src, i, "Invalid system call syntax: Tag") {
            Some((j, n)) => BlockStep::Node(j, n),
            None => BlockStep::Stuck,
        };
    }
    if let Some((j, t)) = read_text_line(src, i) {
        return BlockStep::Node(j, CstNode::TextLine(t));
    }
    BlockStep::Skip
}

fn read_block_children(src: &Source, i: usize, floats: &FloatTable) -> (r: (
    usize,
    Vec<CstNode>,
    bool,
))
    requires
        src.wf(),
        i <= src.s().len(),
    ensures
        p_block_children(src.s(), i as int, float_table_view(floats@), Seq::empty()) == (
            r.0 as int,
            cst_nodes_view(r.1),
            r.2,
        ),
        i <= r.0 <= src.s().len(),
    decreases src.s().len() - i, 2nat,
{
    let ghost s = src.s();
    let ghost fl = float_table_view(floats@);
    let mut out: Vec<CstNode> = Vec::new();
    let mut cur = i;
    assert(cst_nodes_view(out) =~= Seq::<CstNodeV>::empty());
    loop
        invariant
            src.wf(),
            s == src.s(),
            fl == float_table_view(floats@),
            i <= cur <= s.len(),
            p_block_children(s, cur as int, fl, cst_nodes_view(out)) == p_block_children(
                s,
                i as int,
                fl,
                Seq::empty(),
            ),
        decreases s.len() - cur,
    {
        let ghost before = cst_nodes_view(out);
        if cur >= src.chars.len() {
            return (cur, out, false);
        }
        match read_block_step(src, cur, floats) {
            BlockStep::End(j, ts) => {
                let mut k: usize = 0;
                while k < ts.len()
                    invariant
                        0 <= k <= ts@.len(),
                        cst_nodes_view(out) == before + trivia_nodes(
                            trivia_view(ts@).take(k as int),
                        ),
                    decreases ts.len() - k,
                {
                    let ghost mid = cst_nodes_view(out);
                    let t = ts[k].copy();
                    out.push(CstNode::Trivia(t));
                    assert(cst_nodes_view(out) =~= mid.push(CstNodeV::Trivia(ts@[k as int]@)));
                    k += 1;
                    assert(trivia_nodes(trivia_view(ts@).take(k as int)) =~= trivia_nodes(
                        trivia_view(ts@).take(k - 1),
                    ).push(CstNodeV::Trivia(ts@[k - 1]@)));
                    assert(cst_nodes_view(out) =~= before + trivia_nodes(
                        trivia_view(ts@).take(k as int),
                    ));
                }
                assert(trivia_view(ts@).take(k as int) =~= trivia_view(ts@));
                return (j, out, false);
            },
            BlockStep::Node(j, n) => {
                if j <= cur {
                    return (cur, out, true);
                }
                let ghost nv = n@;
                out.push(n);
                assert(cst_nodes_view(out) =~= before.push(nv));
                cur = j;
            },
            BlockStep::Skip => {
                cur = cur + 1;
            },
            BlockStep::Stuck => {
                return (cur, out, true);
            },
        }
    }
}

fn read_block(src: &Source, i: usize, floats: &FloatTable) -> (r: (Option<(usize, CstBlock)>, bool))
    requires
        src.wf(),
        i <= src.s().len(),
    ensures
        p_block(src.s(), i as int, float_table_view(floats@)).1 == r.1,
        match r.0 {
            Some((j, b)) => p_block(src.s(), i as int, float_table_view(floats@)).0 == Some(
                (j as int, cst_block_view(b)),
            ) && i < j <= src.s().len(),
            None => p_block(src.s(), i as int, float_table_view(floats@)).0 is None,
        },
    decreases src.s().len() - i, 0nat,
{
    if !src.at(i, '{') {
        return (None, false);
    }
    let (j, children, stuck) = read_block_children(src, i + 1, floats);
    if stuck {
        return (None, true);
    }
    if !src.at(j, '}') {
        return (None, false);
    }
    let b = CstBlock {
        open_brace: src.token(i, 1),
        children,
        close_brace: src.token(j, 1),
        span: src.range(i, j + 1),
    };
    (Some((j + 1, b)), false)
}

fn read_paragraph(src: &Source, i: usize, floats: &FloatTable) -> (r: (
    Option<(usize, CstParagraph)>,
    bool,
))
    requires
        src.wf(),
        i <= src.s().len(),
    ensures
        p_paragraph(src.s(), i as int, float_table_view(floats@)).1 == r.1,
        match r.0 {
            Some((j, p)) => p_paragraph(src.s(), i as int, float_table_view(floats@)).0 == Some(
                (j as int, cst_paragraph_view(p)),
            ) && i < j <= src.s().len(),
            None => p_paragraph(src.s(), i as int, float_table_view(floats@)).0 is None,
        },
{
    let (t, leading_trivia) = read_trivias(src, i);
    if !(src.at(t, ':') && src.at(t + 1, ':')) {
        return (None, false);
    }
    let (j, name) = match read_identifier(src, t + 2) {
        Some(x) => x,
        None => {
            return (None, false);
        },
    };
    let (k, open_paren, parameters, close_paren) = match read_parameters(src, j, floats) {
        Some((k, o, ps, c)) => (k, Some(o), ps, Some(c)),
        None => {
            let ps: Vec<CstParameter> = Vec::new();
            assert(cst_parameters_view(ps@) =~= Seq::<CstParameterV>::empty());
            (j, None, ps, None)
        },
    };
    let m = scan_exec(src, k, CharClass::SpaceTab);
    let (blk, stuck) = read_block(src, m, floats);
    match blk {
        Some((e, block)) => {
            let p = CstParagraph {
                name,
                colon_token: src.token(t, 2),
                name_span: src.range(t + 2, j),
                parameters,
                open_paren,
                close_paren,
                block,
                span: src.range(i, e),
                leading_trivia,
            };
            (Some((e, p)), false)
        },
        None => (None, stuck),
    }
}

/// Reads a whole file into a concrete syntax tree, never failing: what
/// cannot be read at the top level is skipped one character at a time,
/// and a line of a block that cannot be read becomes an error node. The
/// float values take their bit patterns from `floats` by their text.
pub fn parse_tolerant(name: &str, input: &str, floats: &FloatTable) -> (r: CstRoot)
    requires
        fits_positions(input@),
        reader_finishes(input@, float_table_view(floats@)),
    ensures
        r@ == parse_tree(name@, input@, float_table_view(floats@)).0,
{
    let (root, _) = read_file(name, input, floats);
    root
}

/// Reads a whole file as `parse_tolerant` does, or gives `None` on a file
/// where the reader would stop making progress: where a line that cannot
/// be read has more bytes than characters are left from its start.
pub fn try_parse(name: &str, input: &str, floats: &FloatTable) -> (r: Option<CstRoot>)
    requires
        fits_positions(input@),
    ensures
        r is Some <==> reader_finishes(input@, float_table_view(floats@)),
        r is Some ==> r->0@ == parse_tree(name@, input@, float_table_view(floats@)).0,
{
    let (root, stuck) = read_file(name, input, floats);
    if stuck {
        None
    } else {
        Some(root)
    }
}

/// The tree of a file, and whether the reader stopped where it would have
/// gone on forever.
fn read_file(name: &str, input: &str, floats: &FloatTable) -> (r: (CstRoot, bool))
    requires
        fits_positions(input@),
    ensures
        r.0@ == parse_tree(name@, input@, float_table_view(floats@)).0,
        r.1 == parse_tree(name@, input@, float_table_view(floats@)).1,
{
    let src = Source::new(input);
    let ghost s = src.s();
    let ghost fl = float_table_view(floats@);
    let mut nodes: Vec<CstNode> = Vec::new();
    let mut cur: usize = 0;
    let mut stopped = false;
    assert(cst_nodes_view(nodes) =~= Seq::<CstNodeV>::empty());
    loop
        invariant_except_break
            src.wf(),
            s == src.s(),
            s == input@,
            fl == float_table_view(floats@),
            cur <= s.len(),
            !stopped,
            p_root_nodes(s, cur as int, fl, cst_nodes_view(nodes)) == p_root_nodes(
                s,
                0,
                fl,
                Seq::empty(),
            ),
        ensures
            src.wf(),
            s == src.s(),
            p_root_nodes(s, 0, fl, Seq::empty()) == (cst_nodes_view(nodes), stopped),
        decreases s.len() - cur,
    {
        let ghost before = cst_nodes_view(nodes);
        if cur >= src.chars.len() {
            break;
        }
        if let Some((j, t)) = read_trivia(&src, cur) {
            nodes.push(CstNode::Trivia(t));
            assert(cst_nodes_view(nodes) =~= before.push(CstNodeV::Trivia(t@)));
            cur = j;
            continue;
        }
        let (para, stuck) = read_paragraph(&src, cur, floats);
        if stuck {
            stopped = true;
            break;
        }
        if let Some((j, p)) = para {
            let ghost pv = cst_paragraph_view(p);
            nodes.push(CstNode::Paragraph(p));
            assert(cst_nodes_view(nodes) =~= before.push(CstNodeV::Paragraph(pv)));
            cur = j;
            continue;
        }
        if let Some((j, c)) = read_command(&src, cur, floats) {
            nodes.push(CstNode::Command(c));
            assert(cst_nodes_view(nodes) =~= before.push(CstNodeV::Command(c@)));
            cur = j;
            continue;
        }
        if let Some((j, c)) = read_system_call(&src, cur, floats) {
            nodes.push(CstNode::SystemCall(c));
            assert(cst_nodes_view(nodes) =~= before.push(CstNodeV::SystemCall(c@)));
            cur = j;
            continue;
        }
        cur = cur + 1;
    }
    let span = src.range(0, src.chars.len());
    (CstRoot { name: name.to_owned(), nodes, span }, stopped)
}

// ---------------------------------------------------------------------
// The floats of a tree
// ---------------------------------------------------------------------

fn push_value_floats(out: &mut Vec<String>, v: &Option<CstValue>)
    ensures
        strings_view(final(out)@) == strings_view(old(out)@) + value_floats(opt_value_view(*v)),
{
    let ghost before = strings_view(out@);
    if let Some(x) = v {
        if let CstValueKind::Float = x.kind {
            out.push(x.raw.clone());
            assert(strings_view(out@) =~= before + seq![x.raw@]);
            return;
        }
    }
    assert(strings_view(out@) =~= before + value_floats(opt_value_view(*v)));
}

fn push_argument_floats(out: &mut Vec<String>, args: &Vec<CstArgument>)
    ensures
        strings_view(final(out)@) == strings_view(old(out)@) + argument_floats(
            cst_arguments_view(args@),
        ),
{
    let ghost start = strings_view(out@);
    let ghost av = cst_arguments_view(args@);
    let mut k: usize = 0;
    assert(av.take(0) =~= Seq::<CstArgumentV>::empty());
    assert(start + argument_floats(av.take(0)) =~= start);
    while k < args.len()
        invariant
            0 <= k <= args@.len(),
            av == cst_arguments_view(args@),
            strings_view(out@) == start + argument_floats(av.take(k as int)),
        decreases args.len() - k,
    {
        assert(av.take(k + 1).drop_last() =~= av.take(k as int));
        assert(av.take(k + 1).last() == args@[k as int]@);
        push_value_floats(out, &args[k].value);
        k += 1;
        assert(strings_view(out@) =~= start + argument_floats(av.take(k as int)));
    }
    assert(av.take(k as int) =~= av);
}

fn push_parameter_floats(out: &mut Vec<String>, ps: &Vec<CstParameter>)
    ensures
        strings_view(final(out)@) == strings_view(old(out)@) + parameter_floats(
            cst_parameters_view(ps@),
        ),
{
    let ghost start = strings_view(out@);
    let ghost pv = cst_parameters_view(ps@);
    let mut k: usize = 0;
    assert(start + parameter_floats(pv.take(0)) =~= start);
    while k < ps.len()
        invariant
            0 <= k <= ps@.len(),
            pv == cst_parameters_view(ps@),
            strings_view(out@) == start + parameter_floats(pv.take(k as int)),
        decreases ps.len() - k,
    {
        assert(pv.take(k + 1).drop_last() =~= pv.take(k as int));
        assert(pv.take(k + 1).last() == ps@[k as int]@);
        push_value_floats(out, &ps[k].default_value);
        k += 1;
        assert(strings_view(out@) =~= start + parameter_floats(pv.take(k as int)));
    }
    assert(pv.take(k as int) =~= pv);
}

fn push_node_floats(out: &mut Vec<String>, n: &CstNode)
    ensures
        strings_view(final(out)@) == strings_view(old(out)@) + node_floats(n@),
    decreases n, 1nat,
{
    let ghost start = strings_view(out@);
    match n {
        CstNode::Command(c) => push_argument_floats(out, &c.arguments),
        CstNode::SystemCall(c) => push_argument_floats(out, &c.arguments),
        CstNode::Paragraph(p) => {
            push_parameter_floats(out, &p.parameters);
            assert(decreases_to!(*n => p.block));
            push_nodes_floats(out, &p.block.children);
            assert(strings_view(out@) =~= start + node_floats(n@));
        },
        CstNode::Block(b) => push_nodes_floats(out, &b.children),
        _ => {
            assert(strings_view(out@) =~= start + node_floats(n@));
        },
    }
}

fn push_nodes_floats(out: &mut Vec<String>, ns: &Vec<CstNode>)
    ensures
        strings_view(final(out)@) == strings_view(old(out)@) + nodes_floats(cst_nodes_view(*ns)),
    decreases ns, 0nat,
{
    let ghost start = strings_view(out@);
    let ghost nv = cst_nodes_view(*ns);
    let mut k: usize = 0;
    assert(start + nodes_floats(nv.take(0)) =~= start);
    while k < ns.len()
        invariant
            0 <= k <= ns@.len(),
            nv == cst_nodes_view(*ns),
            nv.len() == ns@.len(),
            strings_view(out@) == start + nodes_floats(nv.take(k as int)),
        decreases ns.len() - k,
    {
        assert(nv.take(k + 1).drop_last() =~= nv.take(k as int));
        assert(nv.take(k + 1).last() == ns@[k as int]@);
        assert(decreases_to!(*ns => ns@[k as int]));
        push_node_floats(out, &ns[k]);
        k += 1;
        assert(strings_view(out@) =~= start + nodes_floats(nv.take(k as int)));
    }
    assert(nv.take(k as int) =~= nv);
}

/// The texts of the floats of a tree, in the order of the source: what
/// the float table of `parse_tolerant` is looked up by.
pub fn float_texts(root: &CstRoot) -> (r: Vec<String>)
    ensures
        strings_view(r@) == nodes_floats(root@.nodes),
{
    let mut out: Vec<String> = Vec::new();
    assert(strings_view(out@) =~= Seq::<Seq<char>>::empty());
    push_nodes_floats(&mut out, &root.nodes);
    assert(strings_view(out@) =~= nodes_floats(root@.nodes));
    out
}

/// A command `@name args` at the start of `input`, after any trivia. The number is the index of the character after
/// what was read.
pub fn parse_command(input: &str, floats: &FloatTable) -> (r: Option<(usize, CstCommand)>)
    requires
        fits_positions(input@),
    ensures
        match r {
            Some((j, x)) => p_call(input@, 0, float_table_view(floats@), '@') == Some((j as int, x@)),
            None => p_call(input@, 0, float_table_view(floats@), '@') is None,
        },
{
    let src = Source::new(input);
    read_command(&src, 0, floats)
}

/// A system call `#name args` at the start of `input`, after any trivia. The number is the index of the character after
/// what was read.
pub fn parse_systemcall(input: &str, floats: &FloatTable) -> (r: Option<(usize, CstSystemCall)>)
    requires
        fits_positions(input@),
    ensures
        match r {
            Some((j, x)) => p_call(input@, 0, float_table_view(floats@), '#') == Some((j as int, x@)),
            None => p_call(input@, 0, float_table_view(floats@), '#') is None,
        },
{
    let src = Source::new(input);
    read_system_call(&src, 0, floats)
}

/// An argument `name` or `name=value` at the start of `input`. The number is the index of the character after
/// what was read.
pub fn parse_argument(input: &str, floats: &FloatTable) -> (r: Option<(usize, CstArgument)>)
    requires
        fits_positions(input@),
    ensures
        match r {
            Some((j, x)) => p_argument(input@, 0, float_table_view(floats@)) == Some((j as int, x@)),
            None => p_argument(input@, 0, float_table_view(floats@)) is None,
        },
{
    let src = Source::new(input);
    read_argument(&src, 0, floats)
}

/// A value at the start of `input`. The number is the index of the character after
/// what was read.
pub fn parse_value(input: &str, floats: &FloatTable) -> (r: Option<(usize, CstValue)>)
    requires
        fits_positions(input@),
    ensures
        match r {
            Some((j, x)) => p_value(input@, 0, float_table_view(floats@)) == Some((j as int, x@)),
            None => p_value(input@, 0, float_table_view(floats@)) is None,
        },
{
    let src = Source::new(input);
    read_value(&src, 0, floats)
}

/// A number at the start of `input`. The number is the index of the character after
/// what was read.
pub fn parse_number_value(input: &str, floats: &FloatTable) -> (r: Option<(usize, CstValue)>)
    requires
        fits_positions(input@),
    ensures
        match r {
            Some((j, x)) => p_number_value(input@, 0, float_table_view(floats@)) == Some((j as int, x@)),
            None => p_number_value(input@, 0, float_table_view(floats@)) is None,
        },
{
    let src = Source::new(input);
    read_number_value(&src, 0, floats)
}

/// A paragraph parameter at the start of `input`. The number is the index of the character after
/// what was read.
pub fn parse_parameter(input: &str, floats: &FloatTable) -> (r: Option<(usize, CstParameter)>)
    requires
        fits_positions(input@),
    ensures
        match r {
            Some((j, x)) => p_parameter(input@, 0, float_table_view(floats@)) == Some((j as int, x@)),
            None => p_parameter(input@, 0, float_table_view(floats@)) is None,
        },
{
    let src = Source::new(input);
    read_parameter(&src, 0, floats)
}

/// An attribute `#[keyword("condition")]` at the start of `input`. The number is the index of the character after
/// what was read.
pub fn parse_cst_attribute(input: &str) -> (r: Option<(usize, CstAttribute)>)
    requires
        fits_positions(input@),
    ensures
        match r {
            Some((j, x)) => p_attribute(input@, 0) == Some((j as int, x@)),
            None => p_attribute(input@, 0) is None,
        },
{
    let src = Source::new(input);
    read_attribute(&src, 0)
}

/// Embedded code `@{...}` or `##...##` at the start of `input`. The number is the index of the character after
/// what was read.
pub fn parse_embedded_code(input: &str) -> (r: Option<(usize, CstEmbeddedCode)>)
    requires
        fits_positions(input@),
    ensures
        match r {
            Some((j, x)) => p_embedded_code(input@, 0) == Some((j as int, x@)),
            None => p_embedded_code(input@, 0) is None,
        },
{
    let src = Source::new(input);
    read_embedded_code(&src, 0)
}

/// A quoted string with escapes at the start of `input`. The number is the index of the character after
/// what was read.
pub fn parse_quoted_string(input: &str) -> (r: Option<(usize, String)>)
    requires
        fits_positions(input@),
    ensures
        match r {
            Some((j, x)) => p_quoted(input@, 0) == Some((j as int, x@)),
            None => p_quoted(input@, 0) is None,
        },
{
    let src = Source::new(input);
    read_quoted(&src, 0)
}

/// A template string at the start of `input`. The number is the index of the character after
/// what was read.
pub fn parse_template_literal(input: &str) -> (r: Option<(usize, CstTemplateLiteral)>)
    requires
        fits_positions(input@),
    ensures
        match r {
            Some((j, x)) => p_template_literal(input@, 0) == Some((j as int, x@)),
            None => p_template_literal(input@, 0) is None,
        },
{
    let src = Source::new(input);
    read_template_literal(&src, 0)
}

/// The bracketed part of a text line at the start of `input`. The number is the index of the character after
/// what was read.
pub fn parse_leading_text(input: &str) -> (r: Option<(usize, CstLeadingText)>)
    requires
        fits_positions(input@),
    ensures
        match r {
            Some((j, x)) => p_leading_text(input@, 0) == Some((j as int, x@)),
            None => p_leading_text(input@, 0) is None,
        },
{
    let src = Source::new(input);
    read_leading_text(&src, 0)
}

/// The main text of a text line at the start of `input`. The number is the index of the character after
/// what was read.
pub fn parse_text(input: &str) -> (r: Option<(usize, CstText)>)
    requires
        fits_positions(input@),
    ensures
        match r {
            Some((j, x)) => p_text(input@, 0) == Some((j as int, x@)),
            None => p_text(input@, 0) is None,
        },
{
    let src = Source::new(input);
    read_text(&src, 0)
}

/// A marker `#tag` at the start of `input`. The number is the index of the character after
/// what was read.
pub fn parse_tailing_text(input: &str) -> (r: Option<(usize, CstTailingText)>)
    requires
        fits_positions(input@),
    ensures
        match r {
            Some((j, x)) => p_tailing(input@, 0) == Some((j as int, x@)),
            None => p_tailing(input@, 0) is None,
        },
{
    let src = Source::new(input);
    read_tailing(&src, 0)
}

/// A text line at the start of `input`, after any trivia. The number is the index of the character after
/// what was read.
pub fn parse_text_line(input: &str) -> (r: Option<(usize, CstTextLine)>)
    requires
        fits_positions(input@),
    ensures
        match r {
            Some((j, x)) => p_text_line(input@, 0) == Some((j as int, x@)),
            None => p_text_line(input@, 0) is None,
        },
{
    let src = Source::new(input);
    read_text_line(&src, 0)
}

/// The parameter list `(a, b=1)` of a paragraph at the start of
/// `input`, with the spans of its parentheses.
pub fn parse_parameters(input: &str, floats: &FloatTable) -> (r: Option<
    (usize, SpanInfo, Vec<CstParameter>, SpanInfo),
>)
    requires
        fits_positions(input@),
    ensures
        match r {
            Some((j, o, ps, c)) => p_parameters(input@, 0, float_table_view(floats@)) == Some(
                (j as int, o, cst_parameters_view(ps@), c),
            ),
            None => p_parameters(input@, 0, float_table_view(floats@)) is None,
        },
{
    let src = Source::new(input);
    read_parameters(&src, 0, floats)
}

/// A block `{ ... }` at the start of `input`.
pub fn parse_block(input: &str, floats: &FloatTable) -> (r: Option<(usize, CstBlock)>)
    requires
        fits_positions(input@),
        !p_block(input@, 0, float_table_view(floats@)).1,
    ensures
        match r {
            Some((j, b)) => p_block(input@, 0, float_table_view(floats@)).0 == Some(
                (j as int, cst_block_view(b)),
            ),
            None => p_block(input@, 0, float_table_view(floats@)).0 is None,
        },
{
    let src = Source::new(input);
    read_block(&src, 0, floats).0
}

/// A paragraph `::name(params) { ... }` at the start of `input`, after
/// any trivia.
pub fn parse_paragraph(input: &str, floats: &FloatTable) -> (r: Option<(usize, CstParagraph)>)
    requires
        fits_positions(input@),
        !p_paragraph(input@, 0, float_table_view(floats@)).1,
    ensures
        match r {
            Some((j, p)) => p_paragraph(input@, 0, float_table_view(floats@)).0 == Some(
                (j as int, cst_paragraph_view(p)),
            ),
            None => p_paragraph(input@, 0, float_table_view(floats@)).0 is None,
        },
{
    let src = Source::new(input);
    read_paragraph(&src, 0, floats).0
}

} // verus!
