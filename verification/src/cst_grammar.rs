//! The grammar of the tolerant reader, as functions from a character
//! sequence and a position to the position after what was read and its
//! syntax tree. `None` is a failed attempt, after which the reader tries
//! the next alternative at the same position.
use vstd::prelude::*;

use crate::cst::{
    CommandSyntax, CstArgumentV, CstAttributeV, CstBlockV, CstCallV, CstEmbeddedCodeV,
    CstLeadingContentV, CstLeadingTextV, CstNodeV, CstParagraphV, CstParameterV, CstRootV,
    CstTailingTextV, CstTemplatePartV, CstTemplateV, CstTextKindV, CstTextLineV, CstTextV,
    CstValueKind, CstValueV, EmbeddedCodeSyntax, QuoteStyle, TriviaV,
};
use crate::format::{LiteralV, RValueV};
use crate::span::{span_at, span_range, span_token, SpanInfo};
use crate::text::{
    is_ascii_alnum, is_ascii_alpha, is_ascii_digit, is_hex_digit, is_multispace, is_space_or_tab,
    is_unicode_whitespace, trim, trim_end, utf8_len_seq,
};

verus! {

// ---------------------------------------------------------------------
// Character classes and runs
// ---------------------------------------------------------------------

/// The sets of characters that the reader takes runs of.
#[derive(Debug, Clone, Copy, PartialEq, Eq, Structural)]
pub enum CharClass {
    /// Anything but `\n` and `\r`.
    NotLineEnd,
    /// Space, tab, `\r`, `\n`.
    Multispace,
    /// Space and tab.
    SpaceTab,
    /// ASCII letters, digits and `_`.
    IdentChar,
    /// ASCII letters, digits, `.` and `_`.
    VariableChar,
    /// ASCII digits.
    Digit,
    /// Anything but the given character.
    Not(char),
    /// Anything but `]` and `\n`.
    LeadingBare,
    /// Anything but `\n`, `\r`, `#`, `@` and `{`.
    BareText,
    /// Anything without the `White_Space` property.
    NonWhitespace,
    /// Characters with the `White_Space` property.
    Whitespace,
    /// ASCII hexadecimal digits.
    HexDigit,
}

pub open spec fn in_class(k: CharClass, c: char) -> bool {
    match k {
        CharClass::NotLineEnd => c != '\n' && c != '\r',
        CharClass::Multispace => is_multispace(c),
        CharClass::SpaceTab => is_space_or_tab(c),
        CharClass::IdentChar => is_ascii_alnum(c) || c == '_',
        CharClass::VariableChar => is_ascii_alnum(c) || c == '.' || c == '_',
        CharClass::Digit => is_ascii_digit(c),
        CharClass::Not(x) => c != x,
        CharClass::LeadingBare => c != ']' && c != '\n',
        CharClass::BareText => c != '\n' && c != '\r' && c != '#' && c != '@' && c != '{',
        CharClass::NonWhitespace => !is_unicode_whitespace(c),
        CharClass::Whitespace => is_unicode_whitespace(c),
        CharClass::HexDigit => is_hex_digit(c),
    }
}

/// The end of the run of characters of class `k` that starts at `i`.
pub open spec fn scan(s: Seq<char>, i: int, k: CharClass) -> int
    decreases s.len() - i,
{
    if i < 0 || i >= s.len() || !in_class(k, s[i]) {
        i
    } else {
        scan(s, i + 1, k)
    }
}

/// Whether `s[i]` is `c`.
pub open spec fn at(s: Seq<char>, i: int, c: char) -> bool {
    0 <= i < s.len() && s[i] == c
}

/// Whether `s[i..]` starts with `t`.
pub open spec fn starts(s: Seq<char>, i: int, t: Seq<char>) -> bool {
    0 <= i && i + t.len() <= s.len() && s.subrange(i, i + t.len()) == t
}

/// The first index `k >= i` where `s[k..]` starts with `a` then `b`.
pub open spec fn find_pair(s: Seq<char>, i: int, a: char, b: char) -> Option<int>
    decreases s.len() - i,
{
    if i < 0 || i + 1 >= s.len() {
        None
    } else if s[i] == a && s[i + 1] == b {
        Some(i)
    } else {
        find_pair(s, i + 1, a, b)
    }
}

/// The first index `k >= i` of a `c`, if any.
pub open spec fn find_char(s: Seq<char>, i: int, c: char) -> Option<int>
    decreases s.len() - i,
{
    if i < 0 || i >= s.len() {
        None
    } else if s[i] == c {
        Some(i)
    } else {
        find_char(s, i + 1, c)
    }
}

/// The first index at or after `i` that is not `White_Space`: where the
/// text from `i` starts once trimmed.
pub open spec fn trimmed_start(s: Seq<char>, i: int) -> int {
    scan(s, i, CharClass::Whitespace)
}

// ---------------------------------------------------------------------
// Trivia
// ---------------------------------------------------------------------

/// A line comment, a block comment or a run of whitespace.
pub open spec fn p_trivia(s: Seq<char>, i: int) -> Option<(int, TriviaV)> {
    if at(s, i, '/') && at(s, i + 1, '/') {
        let j = scan(s, i + 2, CharClass::NotLineEnd);
        Some((j, TriviaV::LineComment { content: s.subrange(i + 2, j), span: span_range(s, i, j) }))
    } else if at(s, i, '/') && at(s, i + 1, '*') && find_pair(s, i + 2, '*', '/') is Some {
        let k = find_pair(s, i + 2, '*', '/')->0;
        Some(
            (
                k + 2,
                TriviaV::BlockComment {
                    content: s.subrange(i + 2, k),
                    span: span_range(s, i, k + 2),
                },
            ),
        )
    } else {
        let j = scan(s, i, CharClass::Multispace);
        if j > i {
            Some((j, TriviaV::Whitespace { content: s.subrange(i, j), span: span_range(s, i, j) }))
        } else {
            None
        }
    }
}

/// As many trivia as follow `i`, with the rest of `acc` before them.
pub open spec fn p_trivias_from(s: Seq<char>, i: int, acc: Seq<TriviaV>) -> (int, Seq<TriviaV>)
    decreases s.len() - i,
{
    match p_trivia(s, i) {
        Some((j, t)) => if i < j <= s.len() {
            p_trivias_from(s, j, acc.push(t))
        } else {
            (i, acc)
        },
        None => (i, acc),
    }
}

pub open spec fn p_trivias(s: Seq<char>, i: int) -> (int, Seq<TriviaV>) {
    p_trivias_from(s, i, Seq::empty())
}

// ---------------------------------------------------------------------
// Identifiers and values
// ---------------------------------------------------------------------

/// An ASCII letter or `_`, then ASCII letters, digits and `_`.
pub open spec fn p_identifier(s: Seq<char>, i: int) -> Option<(int, Seq<char>)> {
    if 0 <= i < s.len() && (is_ascii_alpha(s[i]) || s[i] == '_') {
        let j = scan(s, i + 1, CharClass::IdentChar);
        Some((j, s.subrange(i, j)))
    } else {
        None
    }
}

/// The bit pattern that the table gives for the text of a float, or
/// that of `0.0` when it has none.
pub open spec fn float_lookup(table: Seq<(Seq<char>, u64)>, raw: Seq<char>) -> u64
    decreases table.len(),
{
    if table.len() == 0 {
        0
    } else if table[0].0 == raw {
        table[0].1
    } else {
        float_lookup(table.drop_first(), raw)
    }
}

/// The value of a run of decimal digits.
pub open spec fn digits_value(d: Seq<char>) -> nat
    decreases d.len(),
{
    if d.len() == 0 {
        0
    } else {
        digits_value(d.drop_last()) * 10 + (d.last() as nat - '0' as nat) as nat
    }
}

/// An optionally negative run of digits as an `i64`, or 0 where it does
/// not fit.
pub open spec fn parse_i64(raw: Seq<char>) -> i64 {
    let neg = raw.len() > 0 && raw[0] == '-';
    let v: int = if neg {
        -(digits_value(raw.drop_first()) as int)
    } else {
        digits_value(raw) as int
    };
    if i64::MIN <= v <= i64::MAX {
        v as i64
    } else {
        0
    }
}

/// `raw.split('.')`.
pub open spec fn split_dots(raw: Seq<char>) -> Seq<Seq<char>>
    decreases raw.len(),
{
    match find_char(raw, 0, '.') {
        Some(k) => if 0 <= k < raw.len() {
            seq![raw.subrange(0, k)] + split_dots(raw.subrange(k + 1, raw.len() as int))
        } else {
            seq![raw]
        },
        None => seq![raw],
    }
}

pub open spec fn quote_style(q: char) -> QuoteStyle {
    if q == '"' {
        QuoteStyle::Double
    } else {
        QuoteStyle::Single
    }
}

/// `"..."` or `'...'`, without escapes.
pub open spec fn p_string_value(s: Seq<char>, i: int) -> Option<(int, CstValueV)> {
    if at(s, i, '"') || at(s, i, '\'') {
        let q = s[i];
        let j = scan(s, i + 1, CharClass::Not(q));
        if at(s, j, q) {
            Some(
                (
                    j + 1,
                    CstValueV {
                        kind: CstValueKind::String { quote: quote_style(q) },
                        raw: s.subrange(i, j + 1),
                        parsed: RValueV::Literal(LiteralV::Str(s.subrange(i + 1, j))),
                        span: span_range(s, i, j + 1),
                    },
                ),
            )
        } else {
            None
        }
    } else {
        None
    }
}

/// `` `...` `` as a plain string.
pub open spec fn p_template_value(s: Seq<char>, i: int) -> Option<(int, CstValueV)> {
    if at(s, i, '`') {
        let j = scan(s, i + 1, CharClass::Not('`'));
        if at(s, j, '`') {
            Some(
                (
                    j + 1,
                    CstValueV {
                        kind: CstValueKind::TemplateString,
                        raw: s.subrange(i, j + 1),
                        parsed: RValueV::Literal(LiteralV::Str(s.subrange(i + 1, j))),
                        span: span_range(s, i, j + 1),
                    },
                ),
            )
        } else {
            None
        }
    } else {
        None
    }
}

/// The end of a number `-?digits(.digits)?` at `i`, if there is one.
pub open spec fn number_end(s: Seq<char>, i: int) -> Option<int> {
    let j0 = if at(s, i, '-') {
        i + 1
    } else {
        i
    };
    let d = scan(s, j0, CharClass::Digit);
    if d == j0 || j0 >= s.len() {
        None
    } else if at(s, d, '.') && scan(s, d + 1, CharClass::Digit) > d + 1 {
        Some(scan(s, d + 1, CharClass::Digit))
    } else {
        Some(d)
    }
}

/// A number: a float when it has a fractional part, else an integer.
pub open spec fn p_number_value(s: Seq<char>, i: int, floats: Seq<(Seq<char>, u64)>) -> Option<
    (int, CstValueV),
> {
    match number_end(s, i) {
        Some(e) => {
            let raw = s.subrange(i, e);
            if raw.contains('.') {
                Some(
                    (
                        e,
                        CstValueV {
                            kind: CstValueKind::Float,
                            raw,
                            parsed: RValueV::Literal(LiteralV::Float(float_lookup(floats, raw))),
                            span: span_range(s, i, e),
                        },
                    ),
                )
            } else {
                Some(
                    (
                        e,
                        CstValueV {
                            kind: CstValueKind::Integer,
                            raw,
                            parsed: RValueV::Literal(LiteralV::Integer(parse_i64(raw))),
                            span: span_range(s, i, e),
                        },
                    ),
                )
            }
        },
        None => None,
    }
}

/// `true` or `false`.
pub open spec fn p_boolean_value(s: Seq<char>, i: int) -> Option<(int, CstValueV)> {
    if starts(s, i, seq!['t', 'r', 'u', 'e']) {
        Some(
            (
                i + 4,
                CstValueV {
                    kind: CstValueKind::Boolean,
                    raw: s.subrange(i, i + 4),
                    parsed: RValueV::Literal(LiteralV::Boolean(true)),
                    span: span_range(s, i, i + 4),
                },
            ),
        )
    } else if starts(s, i, seq!['f', 'a', 'l', 's', 'e']) {
        Some(
            (
                i + 5,
                CstValueV {
                    kind: CstValueKind::Boolean,
                    raw: s.subrange(i, i + 5),
                    parsed: RValueV::Literal(LiteralV::Boolean(false)),
                    span: span_range(s, i, i + 5),
                },
            ),
        )
    } else {
        None
    }
}

/// A dotted path of ASCII letters, digits and `_`.
pub open spec fn p_variable_value(s: Seq<char>, i: int) -> Option<(int, CstValueV)> {
    let j = scan(s, i, CharClass::VariableChar);
    if 0 <= i && j > i {
        let raw = s.subrange(i, j);
        Some(
            (
                j,
                CstValueV {
                    kind: CstValueKind::Variable,
                    raw,
                    parsed: RValueV::Variable(split_dots(raw)),
                    span: span_range(s, i, j),
                },
            ),
        )
    } else {
        None
    }
}

/// The first of a string, a template string, a number, a boolean and a
/// variable that can be read at `i`.
pub open spec fn p_value(s: Seq<char>, i: int, floats: Seq<(Seq<char>, u64)>) -> Option<
    (int, CstValueV),
> {
    if p_string_value(s, i) is Some {
        p_string_value(s, i)
    } else if p_template_value(s, i) is Some {
        p_template_value(s, i)
    } else if p_number_value(s, i, floats) is Some {
        p_number_value(s, i, floats)
    } else if p_boolean_value(s, i) is Some {
        p_boolean_value(s, i)
    } else {
        p_variable_value(s, i)
    }
}

// ---------------------------------------------------------------------
// Arguments, commands and system calls
// ---------------------------------------------------------------------

/// The span that an argument's `=` is given: one byte at the very start
/// of a text, whatever its place.
pub open spec fn argument_equals_span() -> SpanInfo {
    SpanInfo { start: 0, end: 1, start_line: 1, start_column: 0, end_line: 1, end_column: 1 }
}

/// `name`, or `name = value`, after any trivia.
pub open spec fn p_argument(s: Seq<char>, i: int, floats: Seq<(Seq<char>, u64)>) -> Option<
    (int, CstArgumentV),
> {
    let (t, lt) = p_trivias(s, i);
    match p_identifier(s, t) {
        None => None,
        Some((j, name)) => {
            let e = scan(s, j, CharClass::SpaceTab);
            let v0 = scan(s, e + 1, CharClass::SpaceTab);
            let value = if at(s, e, '=') {
                p_value(s, v0, floats)
            } else {
                None
            };
            let with_value = value is Some;
            let end = match value {
                Some((k, _)) => k,
                None => j,
            };
            Some(
                (
                    end,
                    CstArgumentV {
                        name,
                        name_span: span_range(s, t, j),
                        equals_token: if with_value {
                            Some(argument_equals_span())
                        } else {
                            None
                        },
                        value: match value {
                            Some((_, v)) => Some(v),
                            None => None,
                        },
                        span: span_range(s, i, end),
                        leading_trivia: lt,
                        trailing_trivia: Seq::empty(),
                    },
                ),
            )
        },
    }
}

/// Arguments each after spaces or tabs, appended to `acc`.
pub open spec fn p_space_args_from(
    s: Seq<char>,
    i: int,
    floats: Seq<(Seq<char>, u64)>,
    acc: Seq<CstArgumentV>,
) -> (int, Seq<CstArgumentV>)
    decreases s.len() - i,
{
    let a = scan(s, i, CharClass::SpaceTab);
    if a > i && p_argument(s, a, floats) is Some {
        let (j, arg) = p_argument(s, a, floats)->0;
        if i < j <= s.len() {
            p_space_args_from(s, j, floats, acc.push(arg))
        } else {
            (i, acc)
        }
    } else {
        (i, acc)
    }
}

/// Further arguments, each after a comma, appended to `acc`.
pub open spec fn p_comma_args_from(
    s: Seq<char>,
    i: int,
    floats: Seq<(Seq<char>, u64)>,
    acc: Seq<CstArgumentV>,
) -> (int, Seq<CstArgumentV>)
    decreases s.len() - i,
{
    let x = scan(s, i, CharClass::SpaceTab);
    let y = scan(s, x + 1, CharClass::SpaceTab);
    if at(s, x, ',') && p_argument(s, y, floats) is Some {
        let (k, arg) = p_argument(s, y, floats)->0;
        if i < k <= s.len() {
            p_comma_args_from(s, k, floats, acc.push(arg))
        } else {
            (i, acc)
        }
    } else {
        (i, acc)
    }
}

/// Arguments separated by commas, possibly none.
pub open spec fn p_comma_args(s: Seq<char>, i: int, floats: Seq<(Seq<char>, u64)>) -> (
    int,
    Seq<CstArgumentV>,
) {
    match p_argument(s, i, floats) {
        Some((j, arg)) => p_comma_args_from(s, j, floats, seq![arg]),
        None => (i, Seq::empty()),
    }
}

/// `(arg, arg)`, after optional spaces or tabs.
pub open spec fn p_args_parenthesized(s: Seq<char>, i: int, floats: Seq<(Seq<char>, u64)>) -> Option<
    (int, Seq<CstArgumentV>, CommandSyntax),
> {
    let a = scan(s, i, CharClass::SpaceTab);
    let b = scan(s, a + 1, CharClass::SpaceTab);
    let (c, args) = p_comma_args(s, b, floats);
    let d = scan(s, c, CharClass::SpaceTab);
    if at(s, a, '(') && at(s, d, ')') {
        Some(
            (
                d + 1,
                args,
                CommandSyntax::Parenthesized {
                    open_paren: span_token(s, a, 1),
                    close_paren: span_token(s, d, 1),
                },
            ),
        )
    } else {
        None
    }
}

/// The arguments of a call: in parentheses, or else separated by spaces.
pub open spec fn p_call_args(s: Seq<char>, i: int, floats: Seq<(Seq<char>, u64)>) -> (
    int,
    Seq<CstArgumentV>,
    CommandSyntax,
) {
    match p_args_parenthesized(s, i, floats) {
        Some(r) => r,
        None => {
            let (j, args) = p_space_args_from(s, i, floats, Seq::empty());
            (j, args, CommandSyntax::SpaceSeparated)
        },
    }
}

/// A command (`sigil` is `@`) or a system call (`sigil` is `#`) after any
/// trivia: the sigil, a name, then arguments.
pub open spec fn p_call(s: Seq<char>, i: int, floats: Seq<(Seq<char>, u64)>, sigil: char) -> Option<
    (int, CstCallV),
> {
    let (t, lt) = p_trivias(s, i);
    if at(s, t, sigil) && p_identifier(s, t + 1) is Some {
        let (j, name) = p_identifier(s, t + 1)->0;
        let (k, args, syntax) = p_call_args(s, j, floats);
        Some(
            (
                k,
                CstCallV {
                    command: name,
                    token: span_token(s, t, 1),
                    name_span: span_range(s, t + 1, j),
                    arguments: args,
                    syntax,
                    span: span_range(s, i, k),
                    leading_trivia: lt,
                },
            ),
        )
    } else {
        None
    }
}

// ---------------------------------------------------------------------
// Attributes
// ---------------------------------------------------------------------

/// The end of `(` + quoted condition + `)` at `c`, with the condition and
/// the span of its quoted text.
pub open spec fn p_attribute_condition(s: Seq<char>, c: int) -> Option<(int, Seq<char>, SpanInfo)> {
    let d = scan(s, c + 1, CharClass::SpaceTab);
    if at(s, c, '(') && (at(s, d, '"') || at(s, d, '\'')) {
        let q = s[d];
        let e = scan(s, d + 1, CharClass::Not(q));
        let f = scan(s, e + 1, CharClass::SpaceTab);
        if at(s, e, q) && at(s, f, ')') {
            Some((f + 1, s.subrange(d + 1, e), span_range(s, d, e + 1)))
        } else {
            None
        }
    } else {
        None
    }
}

/// `#[keyword]` or `#[keyword("condition")]` after any trivia.
pub open spec fn p_attribute(s: Seq<char>, i: int) -> Option<(int, CstAttributeV)> {
    let (t, lt) = p_trivias(s, i);
    let a = scan(s, t + 2, CharClass::SpaceTab);
    if at(s, t, '#') && at(s, t + 1, '[') && p_identifier(s, a) is Some {
        let (b, keyword) = p_identifier(s, a)->0;
        let c = scan(s, b, CharClass::SpaceTab);
        let cond = if at(s, c, '(') {
            p_attribute_condition(s, c)
        } else {
            Some((c, Seq::<char>::empty(), span_at(s, c)))
        };
        match cond {
            None => None,
            Some((p, text, cspan)) => {
                let g = scan(s, p, CharClass::SpaceTab);
                if at(s, g, ']') {
                    Some(
                        (
                            g + 1,
                            CstAttributeV {
                                keyword,
                                keyword_span: span_range(s, a, b),
                                condition: if at(s, c, '(') {
                                    Some(text)
                                } else {
                                    None
                                },
                                condition_span: if at(s, c, '(') {
                                    Some(cspan)
                                } else {
                                    None
                                },
                                open_token: span_token(s, t, 2),
                                close_token: span_token(s, g, 1),
                                span: span_range(s, i, g + 1),
                                leading_trivia: lt,
                            },
                        ),
                    )
                } else {
                    None
                }
            },
        }
    } else {
        None
    }
}

// ---------------------------------------------------------------------
// Parameters
// ---------------------------------------------------------------------

/// `name` or `name = default`, with trivia before and after.
pub open spec fn p_parameter(s: Seq<char>, i: int, floats: Seq<(Seq<char>, u64)>) -> Option<
    (int, CstParameterV),
> {
    let (t, lt) = p_trivias(s, i);
    match p_identifier(s, t) {
        None => None,
        Some((j, name)) => {
            let e = scan(s, j, CharClass::SpaceTab);
            let v0 = scan(s, e + 1, CharClass::SpaceTab);
            let value = if at(s, e, '=') {
                p_value(s, v0, floats)
            } else {
                None
            };
            let with_value = value is Some;
            let m = match value {
                Some((k, _)) => k,
                None => j,
            };
            let (end, tt) = p_trivias(s, m);
            Some(
                (
                    end,
                    CstParameterV {
                        name,
                        name_span: span_range(s, t, j),
                        equals_token: if with_value {
                            Some(span_token(s, e, 1))
                        } else {
                            None
                        },
                        default_value: match value {
                            Some((_, v)) => Some(v),
                            None => None,
                        },
                        span: span_range(s, i, end),
                        leading_trivia: lt,
                        trailing_trivia: tt,
                    },
                ),
            )
        },
    }
}

/// Further parameters, each after a comma, appended to `acc`.
pub open spec fn p_comma_params_from(
    s: Seq<char>,
    i: int,
    floats: Seq<(Seq<char>, u64)>,
    acc: Seq<CstParameterV>,
) -> (int, Seq<CstParameterV>)
    decreases s.len() - i,
{
    let x = scan(s, i, CharClass::SpaceTab);
    let y = scan(s, x + 1, CharClass::SpaceTab);
    if at(s, x, ',') && p_parameter(s, y, floats) is Some {
        let (k, p) = p_parameter(s, y, floats)->0;
        if i < k <= s.len() {
            p_comma_params_from(s, k, floats, acc.push(p))
        } else {
            (i, acc)
        }
    } else {
        (i, acc)
    }
}

/// `(param, param = default)` after optional spaces or tabs, with the
/// spans of the parentheses.
pub open spec fn p_parameters(s: Seq<char>, i: int, floats: Seq<(Seq<char>, u64)>) -> Option<
    (int, SpanInfo, Seq<CstParameterV>, SpanInfo),
> {
    let a = scan(s, i, CharClass::SpaceTab);
    let b = scan(s, a + 1, CharClass::SpaceTab);
    let (c, params) = match p_parameter(s, b, floats) {
        Some((j, p)) => p_comma_params_from(s, j, floats, seq![p]),
        None => (b, Seq::empty()),
    };
    let d = scan(s, c, CharClass::SpaceTab);
    if at(s, a, '(') && at(s, d, ')') {
        Some((d + 1, span_token(s, a, 1), params, span_token(s, d, 1)))
    } else {
        None
    }
}

// ---------------------------------------------------------------------
// Escapes, template strings and quoted strings
// ---------------------------------------------------------------------

/// The character that `\c` stands for: `\n`, `\t` and `\r` are control
/// characters, any other character stands for itself.
pub open spec fn escaped(c: char) -> char {
    if c == 'n' {
        '\n'
    } else if c == 't' {
        '\t'
    } else if c == 'r' {
        '\r'
    } else {
        c
    }
}

/// Text of a template up to a backtick, `${` or the end, escapes
/// resolved, appended to `acc`.
pub open spec fn template_text(s: Seq<char>, i: int, acc: Seq<char>) -> (int, Seq<char>)
    decreases s.len() - i,
{
    if i < 0 || i >= s.len() || s[i] == '`' || (s[i] == '$' && at(s, i + 1, '{')) {
        (i, acc)
    } else if s[i] == '\\' && i + 1 < s.len() {
        template_text(s, i + 2, acc.push(escaped(s[i + 1])))
    } else {
        template_text(s, i + 1, acc.push(s[i]))
    }
}

/// The parts of a template from `i` to its closing backtick, appended to
/// `acc`, with the index of that backtick.
pub open spec fn p_template_parts(s: Seq<char>, i: int, acc: Seq<CstTemplatePartV>) -> Option<
    (int, Seq<CstTemplatePartV>),
>
    decreases s.len() - i,
{
    if i < 0 || i >= s.len() {
        None
    } else if s[i] == '`' {
        Some((i, acc))
    } else if s[i] == '$' && at(s, i + 1, '{') {
        match p_identifier(s, i + 2) {
            Some((j, name)) => if at(s, j, '}') && i < j {
                p_template_parts(
                    s,
                    j + 1,
                    acc.push(
                        CstTemplatePartV::Value {
                            open_token: span_token(s, i, 2),
                            variable: seq![name],
                            variable_span: span_range(s, i + 2, j),
                            close_token: span_token(s, j, 1),
                            span: span_range(s, i, j + 1),
                        },
                    ),
                )
            } else {
                None
            },
            None => None,
        }
    } else {
        let (j, text) = template_text(s, i, Seq::empty());
        if i < j <= s.len() {
            p_template_parts(
                s,
                j,
                acc.push(CstTemplatePartV::Text { content: text, span: span_range(s, i, j) }),
            )
        } else {
            None
        }
    }
}

/// `` `text ${name} text` ``.
pub open spec fn p_template_literal(s: Seq<char>, i: int) -> Option<(int, CstTemplateV)> {
    if at(s, i, '`') {
        match p_template_parts(s, i + 1, Seq::empty()) {
            Some((j, parts)) => Some((j + 1, CstTemplateV { parts, span: span_range(s, i, j + 1) })),
            None => None,
        }
    } else {
        None
    }
}

pub open spec fn hex_value_of(c: char) -> nat {
    if '0' <= c <= '9' {
        (c as nat - '0' as nat) as nat
    } else if 'a' <= c <= 'f' {
        (c as nat - 'a' as nat + 10) as nat
    } else {
        (c as nat - 'A' as nat + 10) as nat
    }
}

/// The value of a run of hexadecimal digits.
pub open spec fn hex_digits_value(d: Seq<char>) -> nat
    decreases d.len(),
{
    if d.len() == 0 {
        0
    } else {
        hex_digits_value(d.drop_last()) * 16 + hex_value_of(d.last())
    }
}

/// Whether `v` is the code point of a `char`.
pub open spec fn is_char_code(v: nat) -> bool {
    v <= 0x10ffff && !(0xd800 <= v <= 0xdfff)
}

/// A `\u` escape after the `u` at `k`: `{hex digits}` or four hex digits.
pub open spec fn unicode_escape(s: Seq<char>, k: int) -> Option<(int, char)> {
    if at(s, k, '{') {
        let m = scan(s, k + 1, CharClass::HexDigit);
        let v = hex_digits_value(s.subrange(k + 1, m));
        if m > k + 1 && at(s, m, '}') && v <= u32::MAX && is_char_code(v) {
            Some((m + 1, v as char))
        } else {
            None
        }
    } else if 0 <= k && k + 4 <= s.len() && scan(s, k, CharClass::HexDigit) >= k + 4 {
        let v = hex_digits_value(s.subrange(k, k + 4));
        if is_char_code(v) {
            Some((k + 4, v as char))
        } else {
            None
        }
    } else {
        None
    }
}

/// The rest of a string quoted by `q`, from `i`, escapes resolved,
/// appended to `acc`, with the index after the closing quote.
pub open spec fn quoted_body(s: Seq<char>, i: int, q: char, acc: Seq<char>) -> Option<
    (int, Seq<char>),
>
    decreases s.len() - i,
{
    if i < 0 || i >= s.len() {
        None
    } else if s[i] == q {
        Some((i + 1, acc))
    } else if s[i] == '\\' && i + 1 < s.len() {
        if s[i + 1] == 'u' {
            match unicode_escape(s, i + 2) {
                Some((j, ch)) => if i < j {
                    quoted_body(s, j, q, acc.push(ch))
                } else {
                    None
                },
                None => None,
            }
        } else {
            quoted_body(s, i + 2, q, acc.push(escaped(s[i + 1])))
        }
    } else {
        quoted_body(s, i + 1, q, acc.push(s[i]))
    }
}

/// `"..."` or `'...'` with escapes.
pub open spec fn p_quoted(s: Seq<char>, i: int) -> Option<(int, Seq<char>)> {
    if at(s, i, '"') || at(s, i, '\'') {
        quoted_body(s, i + 1, s[i], Seq::empty())
    } else {
        None
    }
}

// ---------------------------------------------------------------------
// Text lines
// ---------------------------------------------------------------------

/// `[...]`: a template, a quoted string, or bare text (trimmed) up to `]`.
pub open spec fn p_leading_text(s: Seq<char>, i: int) -> Option<(int, CstLeadingTextV)> {
    let a = scan(s, i + 1, CharClass::SpaceTab);
    let (c, content) = if p_template_literal(s, a) is Some {
        let (j, t) = p_template_literal(s, a)->0;
        (j, CstLeadingContentV::Template(t))
    } else if p_quoted(s, a) is Some {
        let (j, text) = p_quoted(s, a)->0;
        (j, CstLeadingContentV::Text(text))
    } else {
        let j = scan(s, a, CharClass::LeadingBare);
        (j, CstLeadingContentV::Text(trim(s.subrange(a, j))))
    };
    let b = scan(s, c, CharClass::SpaceTab);
    if at(s, i, '[') && at(s, b, ']') {
        Some(
            (
                b + 1,
                CstLeadingTextV {
                    open_bracket: span_token(s, i, 1),
                    content,
                    close_bracket: span_token(s, b, 1),
                    span: span_range(s, i, b + 1),
                },
            ),
        )
    } else {
        None
    }
}

/// The main text: a template, a quoted string, or bare text up to the
/// end of the line or `#`, `@`, `{` (trimmed at its end).
pub open spec fn p_text(s: Seq<char>, i: int) -> Option<(int, CstTextV)> {
    if p_template_literal(s, i) is Some {
        let (j, t) = p_template_literal(s, i)->0;
        Some(
            (
                j,
                CstTextV {
                    kind: CstTextKindV::Template(t),
                    raw: s.subrange(i, j),
                    parsed: Seq::empty(),
                    span: span_range(s, i, j),
                },
            ),
        )
    } else if p_quoted(s, i) is Some {
        let (j, text) = p_quoted(s, i)->0;
        Some(
            (
                j,
                CstTextV {
                    kind: CstTextKindV::Quoted(quote_style(s[i])),
                    raw: s.subrange(i, j),
                    parsed: text,
                    span: span_range(s, i, j),
                },
            ),
        )
    } else {
        let j = scan(s, i, CharClass::BareText);
        if 0 <= i && j > i {
            let t = trim_end(s.subrange(i, j));
            Some((j, CstTextV { kind: CstTextKindV::Bare, raw: t, parsed: t, span: span_range(s, i, j) }))
        } else {
            None
        }
    }
}

/// `#marker`: `#` and the characters up to whitespace.
pub open spec fn p_tailing(s: Seq<char>, i: int) -> Option<(int, CstTailingTextV)> {
    let j = scan(s, i + 1, CharClass::NonWhitespace);
    if at(s, i, '#') && j > i + 1 {
        Some(
            (
                j,
                CstTailingTextV {
                    hash_token: span_token(s, i, 1),
                    marker: s.subrange(i + 1, j),
                    marker_span: span_range(s, i + 1, j),
                    span: span_range(s, i, j),
                },
            ),
        )
    } else {
        None
    }
}

/// A text line `[leading] text #marker`, each part optional, after any
/// trivia; refused where the trimmed rest starts with `@`, `#`, `{`, `}`
/// or `:`.
pub open spec fn p_text_line(s: Seq<char>, i: int) -> Option<(int, CstTextLineV)> {
    let (t, lt) = p_trivias(s, i);
    let f = trimmed_start(s, t);
    if at(s, f, '@') || at(s, f, '#') || at(s, f, '{') || at(s, f, '}') || at(s, f, ':') {
        None
    } else {
        let (a, leading) = match p_leading_text(s, t) {
            Some((a, l)) => (a, Some(l)),
            None => (t, None),
        };
        let b = scan(s, a, CharClass::SpaceTab);
        let (c, text) = match p_text(s, b) {
            Some((c, x)) => (c, Some(x)),
            None => (b, None),
        };
        let d = scan(s, c, CharClass::SpaceTab);
        let (e, tailing) = match p_tailing(s, d) {
            Some((e, g)) => (e, Some(g)),
            None => (d, None),
        };
        Some((e, CstTextLineV { leading, text, tailing, span: span_range(s, i, e), leading_trivia: lt }))
    }
}

// ---------------------------------------------------------------------
// Embedded code
// ---------------------------------------------------------------------

/// The index after the brace that brings `depth` open braces to zero.
pub open spec fn brace_close(s: Seq<char>, k: int, depth: nat) -> Option<int>
    decreases s.len() - k,
{
    if depth == 0 {
        Some(k)
    } else if k < 0 || k >= s.len() {
        None
    } else if s[k] == '{' {
        brace_close(s, k + 1, depth + 1)
    } else if s[k] == '}' {
        brace_close(s, k + 1, (depth - 1) as nat)
    } else {
        brace_close(s, k + 1, depth)
    }
}

/// The first index `m >= k` followed by spaces or tabs and `##`.
pub open spec fn hash_close(s: Seq<char>, k: int) -> Option<int>
    decreases s.len() - k,
{
    let w = scan(s, k, CharClass::SpaceTab);
    if at(s, w, '#') && at(s, w + 1, '#') {
        Some(k)
    } else if k < 0 || k >= s.len() {
        None
    } else {
        hash_close(s, k + 1)
    }
}

/// `@{ code }` with balanced braces inside, or `## code ##`.
pub open spec fn p_embedded_code(s: Seq<char>, i: int) -> Option<(int, CstEmbeddedCodeV)> {
    if at(s, i, '@') && at(s, i + 1, '{') && brace_close(s, i + 2, 1) is Some {
        let e = brace_close(s, i + 2, 1)->0;
        Some(
            (
                e,
                CstEmbeddedCodeV {
                    syntax: EmbeddedCodeSyntax::Brace,
                    code: s.subrange(i + 2, e - 1),
                    span: span_range(s, i, e),
                },
            ),
        )
    } else if at(s, i, '#') && at(s, i + 1, '#') {
        let a = scan(s, i + 2, CharClass::SpaceTab);
        let b = if at(s, a, '\r') && at(s, a + 1, '\n') {
            a + 2
        } else if at(s, a, '\n') {
            a + 1
        } else {
            a
        };
        match hash_close(s, b) {
            Some(m) => {
                let e = scan(s, m, CharClass::SpaceTab) + 2;
                Some(
                    (
                        e,
                        CstEmbeddedCodeV {
                            syntax: EmbeddedCodeSyntax::Hash,
                            code: s.subrange(b, m),
                            span: span_range(s, i, e),
                        },
                    ),
                )
            },
            None => None,
        }
    } else {
        None
    }
}

// ---------------------------------------------------------------------
// Blocks, paragraphs and files
// ---------------------------------------------------------------------

/// Where the line that starts at `i` ends: its first `\n`, or the end.
pub open spec fn line_end(s: Seq<char>, i: int) -> int {
    match find_char(s, i, '\n') {
        Some(k) => k,
        None => s.len() as int,
    }
}

/// How many characters are skipped after a line that cannot be read: as
/// many as the line has bytes, plus one for its line break.
pub open spec fn error_skip(s: Seq<char>, i: int) -> int {
    utf8_len_seq(s.subrange(i, line_end(s, i))) + if find_char(s, i, '\n') is Some {
        1int
    } else {
        0int
    }
}

/// The node for a line at `i` that cannot be read, and where reading
/// goes on; `None` where fewer characters are left than are to be
/// skipped, which the reader never gets past.
pub open spec fn error_line(s: Seq<char>, i: int, message: Seq<char>) -> Option<(int, CstNodeV)> {
    let j = i + error_skip(s, i);
    if j <= s.len() {
        Some(
            (
                j,
                CstNodeV::Error {
                    content: s.subrange(i, line_end(s, i)),
                    span: span_range(s, i, j),
                    message,
                },
            ),
        )
    } else {
        None
    }
}

pub open spec fn command_error_message() -> Seq<char> {
    seq!['I', 'n', 'v', 'a', 'l', 'i', 'd', ' ', 'c', 'o', 'm', 'm', 'a', 'n', 'd', ' ', 's', 'y',
    'n', 't', 'a', 'x', ':', ' ', 'T', 'a', 'g']
}

pub open spec fn system_call_error_message() -> Seq<char> {
    seq!['I', 'n', 'v', 'a', 'l', 'i', 'd', ' ', 's', 'y', 's', 't', 'e', 'm', ' ', 'c', 'a', 'l',
    'l', ' ', 's', 'y', 'n', 't', 'a', 'x', ':', ' ', 'T', 'a', 'g']
}

pub open spec fn trivia_nodes(t: Seq<TriviaV>) -> Seq<CstNodeV> {
    t.map_values(|x: TriviaV| CstNodeV::Trivia(x))
}

/// What the reader does at a position inside a block.
pub enum BlockStepV {
    /// The block ends after these trivia, at the given position.
    End(int, Seq<TriviaV>),
    /// A node, and the position after it.
    Node(int, CstNodeV),
    /// Nothing can be read: one character is skipped.
    Skip,
    /// The reader would go on forever.
    Stuck,
}

/// The step of the reader at `i`, inside a block: trivia, embedded code,
/// a nested block, an attribute, a command or a system call (or an
/// error node where the line looks like one but cannot be read), then a
/// text line.
pub open spec fn block_step(s: Seq<char>, i: int, floats: Seq<(Seq<char>, u64)>) -> BlockStepV
    decreases s.len() - i, 1nat,
{
    let f = trimmed_start(s, i);
    if f >= s.len() || s[f] == '}' {
        let (j, ts) = p_trivias(s, i);
        BlockStepV::End(j, ts)
    } else if p_trivia(s, i) is Some {
        let (j, t) = p_trivia(s, i)->0;
        BlockStepV::Node(j, CstNodeV::Trivia(t))
    } else if p_embedded_code(s, i) is Some {
        let (j, c) = p_embedded_code(s, i)->0;
        BlockStepV::Node(j, CstNodeV::EmbeddedCode(c))
    } else if p_block(s, i, floats).1 {
        BlockStepV::Stuck
    } else if p_block(s, i, floats).0 is Some {
        let (j, b) = p_block(s, i, floats).0->0;
        BlockStepV::Node(j, CstNodeV::Block(b))
    } else {
        line_step(s, i, f, floats)
    }
}

/// The step of the reader at `i` inside a block where nothing but an
/// attribute, a command, a system call or a text line can start; `f` is
/// where the trimmed rest starts.
pub open spec fn line_step(s: Seq<char>, i: int, f: int, floats: Seq<(Seq<char>, u64)>) -> BlockStepV {
    let looks_like_attribute = at(s, f, '#') && at(s, f + 1, '[');
    let looks_like_command = at(s, f, '@') && !at(s, f + 1, '{');
    let looks_like_system_call = at(s, f, '#') && !looks_like_attribute;
    if looks_like_attribute && p_attribute(s, i) is Some {
        let (j, a) = p_attribute(s, i)->0;
        BlockStepV::Node(j, CstNodeV::Attribute(a))
    } else if looks_like_command {
        match p_call(s, i, floats, '@') {
            Some((j, c)) => BlockStepV::Node(j, CstNodeV::Command(c)),
            None => match error_line(s, i, command_error_message()) {
                Some((j, n)) => BlockStepV::Node(j, n),
                None => BlockStepV::Stuck,
            },
        }
    } else if looks_like_system_call {
        match p_call(s, i, floats, '#') {
            Some((j, c)) => BlockStepV::Node(j, CstNodeV::SystemCall(c)),
            None => match error_line(s, i, system_call_error_message()) {
                Some((j, n)) => BlockStepV::Node(j, n),
                None => BlockStepV::Stuck,
            },
        }
    } else if p_text_line(s, i) is Some {
        let (j, t) = p_text_line(s, i)->0;
        BlockStepV::Node(j, CstNodeV::TextLine(t))
    } else {
        BlockStepV::Skip
    }
}

/// The nodes of a block from `i` to its closing brace, appended to
/// `acc`; the flag is set where the reader would go on forever (a step
/// that reads nothing included).
pub open spec fn p_block_children(
    s: Seq<char>,
    i: int,
    floats: Seq<(Seq<char>, u64)>,
    acc: Seq<CstNodeV>,
) -> (int, Seq<CstNodeV>, bool)
    decreases s.len() - i, 2nat,
{
    if i < 0 || i >= s.len() {
        (i, acc, false)
    } else {
        match block_step(s, i, floats) {
            BlockStepV::End(j, ts) => (j, acc + trivia_nodes(ts), false),
            BlockStepV::Node(j, n) => if i < j <= s.len() {
                p_block_children(s, j, floats, acc.push(n))
            } else {
                (i, acc, true)
            },
            BlockStepV::Skip => p_block_children(s, i + 1, floats, acc),
            BlockStepV::Stuck => (i, acc, true),
        }
    }
}

/// `{ ... }`, with a flag set where the reader would go on forever.
pub open spec fn p_block(s: Seq<char>, i: int, floats: Seq<(Seq<char>, u64)>) -> (
    Option<(int, CstBlockV)>,
    bool,
)
    decreases s.len() - i, 0nat,
{
    if at(s, i, '{') {
        let (j, nodes, stuck) = p_block_children(s, i + 1, floats, Seq::empty());
        if stuck {
            (None, true)
        } else if at(s, j, '}') {
            (
                Some(
                    (
                        j + 1,
                        CstBlockV {
                            open_brace: span_token(s, i, 1),
                            children: nodes,
                            close_brace: span_token(s, j, 1),
                            span: span_range(s, i, j + 1),
                        },
                    ),
                ),
                false,
            )
        } else {
            (None, false)
        }
    } else {
        (None, false)
    }
}

/// `::name(params) { ... }` after any trivia, with a flag set where the
/// reader would go on forever.
pub open spec fn p_paragraph(s: Seq<char>, i: int, floats: Seq<(Seq<char>, u64)>) -> (
    Option<(int, CstParagraphV)>,
    bool,
) {
    let (t, lt) = p_trivias(s, i);
    if at(s, t, ':') && at(s, t + 1, ':') && p_identifier(s, t + 2) is Some {
        let (j, name) = p_identifier(s, t + 2)->0;
        let (k, open_paren, parameters, close_paren) = match p_parameters(s, j, floats) {
            Some((k, o, ps, c)) => (k, Some(o), ps, Some(c)),
            None => (j, None, Seq::empty(), None),
        };
        let m = scan(s, k, CharClass::SpaceTab);
        match p_block(s, m, floats) {
            (Some((e, block)), _) => (
                Some(
                    (
                        e,
                        CstParagraphV {
                            name,
                            colon_token: span_token(s, t, 2),
                            name_span: span_range(s, t + 2, j),
                            parameters,
                            open_paren,
                            close_paren,
                            block,
                            span: span_range(s, i, e),
                            leading_trivia: lt,
                        },
                    ),
                ),
                false,
            ),
            (None, stuck) => (None, stuck),
        }
    } else {
        (None, false)
    }
}

/// The top-level nodes of a file from `i`, appended to `acc`; the flag
/// is set where the reader would go on forever.
pub open spec fn p_root_nodes(s: Seq<char>, i: int, floats: Seq<(Seq<char>, u64)>, acc: Seq<CstNodeV>) -> (
    Seq<CstNodeV>,
    bool,
)
    decreases s.len() - i,
{
    if i < 0 || i >= s.len() {
        (acc, false)
    } else if p_trivia(s, i) is Some {
        let (j, t) = p_trivia(s, i)->0;
        if i < j <= s.len() {
            p_root_nodes(s, j, floats, acc.push(CstNodeV::Trivia(t)))
        } else {
            (acc, true)
        }
    } else if p_paragraph(s, i, floats).1 {
        (acc, true)
    } else if p_paragraph(s, i, floats).0 is Some {
        let (j, p) = p_paragraph(s, i, floats).0->0;
        if i < j <= s.len() {
            p_root_nodes(s, j, floats, acc.push(CstNodeV::Paragraph(p)))
        } else {
            (acc, true)
        }
    } else if p_call(s, i, floats, '@') is Some {
        let (j, c) = p_call(s, i, floats, '@')->0;
        if i < j <= s.len() {
            p_root_nodes(s, j, floats, acc.push(CstNodeV::Command(c)))
        } else {
            (acc, true)
        }
    } else if p_call(s, i, floats, '#') is Some {
        let (j, c) = p_call(s, i, floats, '#')->0;
        if i < j <= s.len() {
            p_root_nodes(s, j, floats, acc.push(CstNodeV::SystemCall(c)))
        } else {
            (acc, true)
        }
    } else {
        p_root_nodes(s, i + 1, floats, acc)
    }
}

/// The tree of a whole file, and whether the reader would go on forever
/// on it.
pub open spec fn parse_tree(name: Seq<char>, s: Seq<char>, floats: Seq<(Seq<char>, u64)>) -> (
    CstRootV,
    bool,
) {
    let (nodes, stuck) = p_root_nodes(s, 0, floats, Seq::empty());
    (CstRootV { name, nodes, span: span_range(s, 0, s.len() as int) }, stuck)
}

/// Whether the reader finishes on `s`.
pub open spec fn reader_finishes(s: Seq<char>, floats: Seq<(Seq<char>, u64)>) -> bool {
    !parse_tree(Seq::empty(), s, floats).1
}

// ---------------------------------------------------------------------
// The floats of a tree
// ---------------------------------------------------------------------

/// The text of a value that is a float.
pub open spec fn value_floats(v: Option<CstValueV>) -> Seq<Seq<char>> {
    match v {
        Some(x) => if x.kind == CstValueKind::Float {
            seq![x.raw]
        } else {
            Seq::empty()
        },
        None => Seq::empty(),
    }
}

pub open spec fn argument_floats(a: Seq<CstArgumentV>) -> Seq<Seq<char>>
    decreases a.len(),
{
    if a.len() == 0 {
        Seq::empty()
    } else {
        argument_floats(a.drop_last()) + value_floats(a.last().value)
    }
}

pub open spec fn parameter_floats(p: Seq<CstParameterV>) -> Seq<Seq<char>>
    decreases p.len(),
{
    if p.len() == 0 {
        Seq::empty()
    } else {
        parameter_floats(p.drop_last()) + value_floats(p.last().default_value)
    }
}

/// The texts of the floats of a node, in the order of the source.
pub open spec fn node_floats(n: CstNodeV) -> Seq<Seq<char>>
    decreases n, 1nat,
{
    match n {
        CstNodeV::Command(c) => argument_floats(c.arguments),
        CstNodeV::SystemCall(c) => argument_floats(c.arguments),
        CstNodeV::Paragraph(p) => parameter_floats(p.parameters) + nodes_floats(p.block.children),
        CstNodeV::Block(b) => nodes_floats(b.children),
        _ => Seq::empty(),
    }
}

pub open spec fn nodes_floats(ns: Seq<CstNodeV>) -> Seq<Seq<char>>
    decreases ns, 0nat,
{
    if ns.len() == 0 {
        Seq::empty()
    } else {
        nodes_floats(ns.drop_last()) + node_floats(ns.last())
    }
}

} // verus!
