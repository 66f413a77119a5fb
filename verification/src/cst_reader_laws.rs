//! When the tolerant reader finishes: every step it takes reads at least
//! one character, and a line that cannot be read is skipped whole, so on
//! a text where such a skip never runs past the end (a text of ASCII
//! characters among them) it always comes to the end.
use vstd::prelude::*;

use crate::cst::CstNodeV;
use crate::cst_grammar::{
    at, block_step, brace_close, error_line, error_skip, find_char, find_pair, hash_close, in_class,
    line_end, line_step, number_end, p_argument, p_args_parenthesized, p_attribute,
    p_attribute_condition, p_block, p_block_children, p_boolean_value, p_call, p_call_args,
    p_comma_args, p_comma_args_from, p_comma_params_from, p_embedded_code, p_identifier,
    p_leading_text, p_number_value, p_paragraph, p_parameter, p_parameters, p_quoted,
    p_root_nodes, p_space_args_from, p_string_value, p_tailing, p_template_literal,
    p_template_parts, p_template_value, p_text, p_text_line, p_trivia, p_trivias,
    p_trivias_from, p_value, p_variable_value, quoted_body, reader_finishes, scan,
    template_text, trimmed_start, BlockStepV, CharClass,
};
use crate::text::{is_multispace, is_unicode_whitespace, utf8_len, utf8_len_seq};
use vstd::utf8::is_ascii_chars;

verus! {

// ---------------------------------------------------------------------
// Where each reader ends
// ---------------------------------------------------------------------

proof fn lemma_scan(s: Seq<char>, i: int, k: CharClass)
    ensures
        scan(s, i, k) >= i,
        0 <= i <= s.len() ==> scan(s, i, k) <= s.len(),
    decreases s.len() - i,
{
    if 0 <= i < s.len() && in_class(k, s[i]) {
        lemma_scan(s, i + 1, k);
    }
}

proof fn lemma_find_pair(s: Seq<char>, i: int, a: char, b: char)
    ensures
        find_pair(s, i, a, b) matches Some(m) ==> i <= m && m + 1 < s.len(),
    decreases s.len() - i,
{
    if !(i < 0 || i + 1 >= s.len()) && !(s[i] == a && s[i + 1] == b) {
        lemma_find_pair(s, i + 1, a, b);
    }
}

proof fn lemma_find_char(s: Seq<char>, i: int, c: char)
    ensures
        find_char(s, i, c) matches Some(m) ==> i <= m < s.len(),
    decreases s.len() - i,
{
    if !(i < 0 || i >= s.len()) && s[i] != c {
        lemma_find_char(s, i + 1, c);
    }
}

proof fn lemma_trivia(s: Seq<char>, i: int)
    requires
        0 <= i <= s.len(),
    ensures
        p_trivia(s, i) matches Some((j, _)) ==> i < j <= s.len(),
{
    lemma_scan(s, i + 2, CharClass::NotLineEnd);
    lemma_scan(s, i, CharClass::Multispace);
    lemma_find_pair(s, i + 2, '*', '/');
}

proof fn lemma_trivias_from(s: Seq<char>, i: int, acc: Seq<crate::cst::TriviaV>)
    requires
        0 <= i <= s.len(),
    ensures
        i <= p_trivias_from(s, i, acc).0 <= s.len(),
    decreases s.len() - i,
{
    if let Some((j, t)) = p_trivia(s, i) {
        if i < j <= s.len() {
            lemma_trivias_from(s, j, acc.push(t));
        }
    }
}

proof fn lemma_trivias(s: Seq<char>, i: int)
    requires
        0 <= i <= s.len(),
    ensures
        i <= p_trivias(s, i).0 <= s.len(),
{
    lemma_trivias_from(s, i, Seq::empty());
}

proof fn lemma_identifier(s: Seq<char>, i: int)
    ensures
        p_identifier(s, i) matches Some((j, _)) ==> i < j <= s.len(),
{
    lemma_scan(s, i + 1, CharClass::IdentChar);
}

proof fn lemma_value(s: Seq<char>, i: int, floats: Seq<(Seq<char>, u64)>)
    requires
        0 <= i <= s.len(),
    ensures
        p_value(s, i, floats) matches Some((j, _)) ==> i < j <= s.len(),
{
    if at(s, i, '"') || at(s, i, '\'') {
        lemma_scan(s, i + 1, CharClass::Not(s[i]));
    }
    lemma_scan(s, i + 1, CharClass::Not('`'));
    let j0 = if at(s, i, '-') {
        i + 1
    } else {
        i
    };
    lemma_scan(s, j0, CharClass::Digit);
    let d = scan(s, j0, CharClass::Digit);
    lemma_scan(s, d + 1, CharClass::Digit);
    lemma_scan(s, i, CharClass::VariableChar);
    assert(p_string_value(s, i) matches Some((j, _)) ==> i < j <= s.len());
    assert(p_template_value(s, i) matches Some((j, _)) ==> i < j <= s.len());
    assert(number_end(s, i) matches Some(e) ==> i < e <= s.len());
    assert(p_number_value(s, i, floats) matches Some((j, _)) ==> i < j <= s.len());
    assert(p_boolean_value(s, i) matches Some((j, _)) ==> i < j <= s.len());
    assert(p_variable_value(s, i) matches Some((j, _)) ==> i < j <= s.len());
}

proof fn lemma_argument(s: Seq<char>, i: int, floats: Seq<(Seq<char>, u64)>)
    requires
        0 <= i <= s.len(),
    ensures
        p_argument(s, i, floats) matches Some((e, _)) ==> i < e <= s.len(),
{
    lemma_trivias(s, i);
    let t = p_trivias(s, i).0;
    lemma_identifier(s, t);
    if let Some((j, _)) = p_identifier(s, t) {
        lemma_scan(s, j, CharClass::SpaceTab);
        let e = scan(s, j, CharClass::SpaceTab);
        if at(s, e, '=') {
            lemma_scan(s, e + 1, CharClass::SpaceTab);
            lemma_value(s, scan(s, e + 1, CharClass::SpaceTab), floats);
        }
    }
}

proof fn lemma_space_args_from(
    s: Seq<char>,
    i: int,
    floats: Seq<(Seq<char>, u64)>,
    acc: Seq<crate::cst::CstArgumentV>,
)
    requires
        0 <= i <= s.len(),
    ensures
        i <= p_space_args_from(s, i, floats, acc).0 <= s.len(),
    decreases s.len() - i,
{
    lemma_scan(s, i, CharClass::SpaceTab);
    let a = scan(s, i, CharClass::SpaceTab);
    if a > i && p_argument(s, a, floats) is Some {
        let (j, arg) = p_argument(s, a, floats)->0;
        if i < j <= s.len() {
            lemma_space_args_from(s, j, floats, acc.push(arg));
        }
    }
}

proof fn lemma_comma_args_from(
    s: Seq<char>,
    i: int,
    floats: Seq<(Seq<char>, u64)>,
    acc: Seq<crate::cst::CstArgumentV>,
)
    requires
        0 <= i <= s.len(),
    ensures
        i <= p_comma_args_from(s, i, floats, acc).0 <= s.len(),
    decreases s.len() - i,
{
    lemma_scan(s, i, CharClass::SpaceTab);
    let x = scan(s, i, CharClass::SpaceTab);
    let y = scan(s, x + 1, CharClass::SpaceTab);
    if at(s, x, ',') && p_argument(s, y, floats) is Some {
        let (k, arg) = p_argument(s, y, floats)->0;
        if i < k <= s.len() {
            lemma_comma_args_from(s, k, floats, acc.push(arg));
        }
    }
}

proof fn lemma_call_args(s: Seq<char>, i: int, floats: Seq<(Seq<char>, u64)>)
    requires
        0 <= i <= s.len(),
    ensures
        i <= p_call_args(s, i, floats).0 <= s.len(),
{
    lemma_space_args_from(s, i, floats, Seq::empty());
    lemma_scan(s, i, CharClass::SpaceTab);
    let a = scan(s, i, CharClass::SpaceTab);
    if at(s, a, '(') {
        lemma_scan(s, a + 1, CharClass::SpaceTab);
        let b = scan(s, a + 1, CharClass::SpaceTab);
        lemma_argument(s, b, floats);
        if let Some((j, arg)) = p_argument(s, b, floats) {
            lemma_comma_args_from(s, j, floats, seq![arg]);
        }
        let c = p_comma_args(s, b, floats).0;
        lemma_scan(s, c, CharClass::SpaceTab);
        assert(p_args_parenthesized(s, i, floats) matches Some((e, _, _)) ==> i < e <= s.len());
    }
}

proof fn lemma_call(s: Seq<char>, i: int, floats: Seq<(Seq<char>, u64)>, sigil: char)
    requires
        0 <= i <= s.len(),
    ensures
        p_call(s, i, floats, sigil) matches Some((k, _)) ==> i < k <= s.len(),
{
    lemma_trivias(s, i);
    let t = p_trivias(s, i).0;
    lemma_identifier(s, t + 1);
    if at(s, t, sigil) && p_identifier(s, t + 1) is Some {
        let j = (p_identifier(s, t + 1)->0).0;
        lemma_call_args(s, j, floats);
    }
}

proof fn lemma_attribute(s: Seq<char>, i: int)
    requires
        0 <= i <= s.len(),
    ensures
        p_attribute(s, i) matches Some((e, _)) ==> i < e <= s.len(),
{
    lemma_trivias(s, i);
    let t = p_trivias(s, i).0;
    if at(s, t, '#') && at(s, t + 1, '[') {
        lemma_scan(s, t + 2, CharClass::SpaceTab);
        let a = scan(s, t + 2, CharClass::SpaceTab);
        lemma_identifier(s, a);
        if let Some((b, _)) = p_identifier(s, a) {
            lemma_scan(s, b, CharClass::SpaceTab);
            let c = scan(s, b, CharClass::SpaceTab);
            if at(s, c, '(') {
                lemma_scan(s, c + 1, CharClass::SpaceTab);
                let d = scan(s, c + 1, CharClass::SpaceTab);
                if at(s, d, '"') || at(s, d, '\'') {
                    let q = s[d];
                    lemma_scan(s, d + 1, CharClass::Not(q));
                    let e = scan(s, d + 1, CharClass::Not(q));
                    lemma_scan(s, e + 1, CharClass::SpaceTab);
                }
                assert(p_attribute_condition(s, c) matches Some((p, _, _)) ==> c < p <= s.len());
                if let Some((p, _, _)) = p_attribute_condition(s, c) {
                    lemma_scan(s, p, CharClass::SpaceTab);
                }
            } else {
                lemma_scan(s, c, CharClass::SpaceTab);
            }
        }
    }
}

proof fn lemma_brace_close(s: Seq<char>, k: int, depth: nat)
    requires
        0 <= k <= s.len(),
    ensures
        brace_close(s, k, depth) matches Some(x) ==> k <= x <= s.len(),
    decreases s.len() - k,
{
    if depth != 0 && k < s.len() {
        if s[k] == '{' {
            lemma_brace_close(s, k + 1, depth + 1);
        } else if s[k] == '}' {
            lemma_brace_close(s, k + 1, (depth - 1) as nat);
        } else {
            lemma_brace_close(s, k + 1, depth);
        }
    }
}

proof fn lemma_hash_close(s: Seq<char>, k: int)
    requires
        0 <= k <= s.len(),
    ensures
        hash_close(s, k) matches Some(m) ==> k <= m && at(s, scan(s, m, CharClass::SpaceTab) + 1, '#'),
    decreases s.len() - k,
{
    let w = scan(s, k, CharClass::SpaceTab);
    if !(at(s, w, '#') && at(s, w + 1, '#')) && k < s.len() {
        lemma_hash_close(s, k + 1);
    }
}

proof fn lemma_embedded(s: Seq<char>, i: int)
    requires
        0 <= i <= s.len(),
    ensures
        p_embedded_code(s, i) matches Some((e, _)) ==> i < e <= s.len(),
{
    if at(s, i, '@') && at(s, i + 1, '{') {
        lemma_brace_close(s, i + 2, 1);
    } else if at(s, i, '#') && at(s, i + 1, '#') {
        lemma_scan(s, i + 2, CharClass::SpaceTab);
        let a = scan(s, i + 2, CharClass::SpaceTab);
        let b = if at(s, a, '\r') && at(s, a + 1, '\n') {
            a + 2
        } else if at(s, a, '\n') {
            a + 1
        } else {
            a
        };
        lemma_hash_close(s, b);
        if let Some(m) = hash_close(s, b) {
            lemma_scan(s, m, CharClass::SpaceTab);
        }
    }
}

proof fn lemma_template_parts(s: Seq<char>, i: int, acc: Seq<crate::cst::CstTemplatePartV>)
    ensures
        p_template_parts(s, i, acc) matches Some((j, _)) ==> i <= j < s.len(),
    decreases s.len() - i,
{
    if 0 <= i < s.len() && s[i] != '`' {
        if s[i] == '$' && at(s, i + 1, '{') {
            if let Some((j, name)) = p_identifier(s, i + 2) {
                if at(s, j, '}') && i < j {
                    lemma_template_parts(
                        s,
                        j + 1,
                        p_template_parts_value_acc(s, i, j, name, acc),
                    );
                }
            }
        } else {
            let (j, text) = template_text(s, i, Seq::empty());
            if i < j <= s.len() {
                lemma_template_parts(
                    s,
                    j,
                    acc.push(
                        crate::cst::CstTemplatePartV::Text {
                            content: text,
                            span: crate::span::span_range(s, i, j),
                        },
                    ),
                );
            }
        }
    }
}

/// The parts read so far, with the `${name}` at `i` added.
spec fn p_template_parts_value_acc(
    s: Seq<char>,
    i: int,
    j: int,
    name: Seq<char>,
    acc: Seq<crate::cst::CstTemplatePartV>,
) -> Seq<crate::cst::CstTemplatePartV> {
    acc.push(
        crate::cst::CstTemplatePartV::Value {
            open_token: crate::span::span_token(s, i, 2),
            variable: seq![name],
            variable_span: crate::span::span_range(s, i + 2, j),
            close_token: crate::span::span_token(s, j, 1),
            span: crate::span::span_range(s, i, j + 1),
        },
    )
}

proof fn lemma_quoted_body(s: Seq<char>, i: int, q: char, acc: Seq<char>)
    ensures
        quoted_body(s, i, q, acc) matches Some((j, _)) ==> i < j <= s.len(),
    decreases s.len() - i,
{
    if 0 <= i < s.len() && s[i] != q {
        if s[i] == '\\' && i + 1 < s.len() {
            if s[i + 1] == 'u' {
                if let Some((j, ch)) = crate::cst_grammar::unicode_escape(s, i + 2) {
                    if i < j {
                        lemma_quoted_body(s, j, q, acc.push(ch));
                    }
                }
            } else {
                lemma_quoted_body(s, i + 2, q, acc.push(crate::cst_grammar::escaped(s[i + 1])));
            }
        } else {
            lemma_quoted_body(s, i + 1, q, acc.push(s[i]));
        }
    }
}

proof fn lemma_template_literal(s: Seq<char>, i: int)
    ensures
        p_template_literal(s, i) matches Some((j, _)) ==> i < j <= s.len(),
{
    lemma_template_parts(s, i + 1, Seq::empty());
}

proof fn lemma_quoted(s: Seq<char>, i: int)
    ensures
        p_quoted(s, i) matches Some((j, _)) ==> i < j <= s.len(),
{
    if at(s, i, '"') || at(s, i, '\'') {
        lemma_quoted_body(s, i + 1, s[i], Seq::empty());
    }
}

proof fn lemma_text(s: Seq<char>, i: int)
    requires
        0 <= i <= s.len(),
    ensures
        p_text(s, i) matches Some((j, _)) ==> i < j <= s.len(),
{
    lemma_template_literal(s, i);
    lemma_quoted(s, i);
    lemma_scan(s, i, CharClass::BareText);
}

proof fn lemma_leading(s: Seq<char>, i: int)
    requires
        0 <= i <= s.len(),
    ensures
        p_leading_text(s, i) matches Some((e, _)) ==> i < e <= s.len(),
{
    if at(s, i, '[') {
        lemma_scan(s, i + 1, CharClass::SpaceTab);
        let a = scan(s, i + 1, CharClass::SpaceTab);
        lemma_template_literal(s, a);
        lemma_quoted(s, a);
        lemma_scan(s, a, CharClass::LeadingBare);
        let c = if p_template_literal(s, a) is Some {
            (p_template_literal(s, a)->0).0
        } else if p_quoted(s, a) is Some {
            (p_quoted(s, a)->0).0
        } else {
            scan(s, a, CharClass::LeadingBare)
        };
        lemma_scan(s, c, CharClass::SpaceTab);
    }
}

proof fn lemma_tailing(s: Seq<char>, i: int)
    requires
        0 <= i <= s.len(),
    ensures
        p_tailing(s, i) matches Some((e, _)) ==> i < e <= s.len(),
{
    if at(s, i, '#') {
        lemma_scan(s, i + 1, CharClass::NonWhitespace);
    }
}

/// A text line read where no trivia starts reads at least one character.
proof fn lemma_text_line(s: Seq<char>, i: int)
    requires
        0 <= i < s.len(),
        p_trivia(s, i) is None,
    ensures
        p_text_line(s, i) matches Some((e, _)) ==> i < e <= s.len(),
{
    assert(p_trivias(s, i) == (i, Seq::<crate::cst::TriviaV>::empty()));
    lemma_scan(s, i, CharClass::Multispace);
    assert(!is_multispace(s[i])) by {
        if is_multispace(s[i]) {
            lemma_scan(s, i + 1, CharClass::Multispace);
        }
    }
    lemma_leading(s, i);
    let a = match p_leading_text(s, i) {
        Some((a, _)) => a,
        None => i,
    };
    lemma_scan(s, a, CharClass::SpaceTab);
    let b = scan(s, a, CharClass::SpaceTab);
    lemma_text(s, b);
    let c = match p_text(s, b) {
        Some((c, _)) => c,
        None => b,
    };
    lemma_scan(s, c, CharClass::SpaceTab);
    let d = scan(s, c, CharClass::SpaceTab);
    lemma_tailing(s, d);
    if p_leading_text(s, i) is None && p_text(s, b) is None {
        assert(b == i);
        lemma_scan(s, i, CharClass::BareText);
        assert(!in_class(CharClass::BareText, s[i])) by {
            if in_class(CharClass::BareText, s[i]) {
                lemma_scan(s, i + 1, CharClass::BareText);
            }
        }
        assert(!is_unicode_whitespace(s[i]));
        assert(trimmed_start(s, i) == i);
        assert(p_text_line(s, i) is None);
    }
}

// ---------------------------------------------------------------------
// Lines that cannot be read, in ASCII text
// ---------------------------------------------------------------------

proof fn lemma_utf8_len_ascii(t: Seq<char>)
    requires
        is_ascii_chars(t),
    ensures
        utf8_len_seq(t) == t.len(),
    decreases t.len(),
{
    if t.len() > 0 {
        assert(is_ascii_chars(t.drop_last()));
        lemma_utf8_len_ascii(t.drop_last());
        assert(t.last() == t[t.len() - 1]);
        assert(utf8_len(t.last()) == 1);
    }
}

/// Every line that starts in `s`, once skipped as a line that cannot be
/// read, leaves the reader inside `s`: as many characters are left after
/// its start as it has bytes, and one more for its line break.
pub open spec fn error_lines_fit(s: Seq<char>) -> bool {
    forall|i: int| 0 <= i < s.len() ==> i + #[trigger] error_skip(s, i) <= s.len()
}

proof fn lemma_ascii_lines_fit(s: Seq<char>)
    requires
        is_ascii_chars(s),
    ensures
        error_lines_fit(s),
{
    assert forall|i: int| 0 <= i < s.len() implies i + #[trigger] error_skip(s, i) <= s.len() by {
        lemma_find_char(s, i, '\n');
        let le = line_end(s, i);
        let line = s.subrange(i, le);
        assert(is_ascii_chars(line)) by {
            assert forall|k: int| 0 <= k < line.len() implies '\0' <= #[trigger] line[k] <= '\u{7f}' by {
                assert(line[k] == s[i + k]);
            }
        }
        lemma_utf8_len_ascii(line);
    }
}

proof fn lemma_error_line(s: Seq<char>, i: int, message: Seq<char>)
    requires
        error_lines_fit(s),
        0 <= i < s.len(),
    ensures
        error_line(s, i, message) matches Some((j, _)) && i < j <= s.len(),
{
    lemma_find_char(s, i, '\n');
    assert(i + error_skip(s, i) <= s.len());
    if find_char(s, i, '\n') is None {
        let line = s.subrange(i, s.len() as int);
        assert(utf8_len_seq(line) >= line.len()) by {
            lemma_utf8_len_ge(line);
        }
    }
}

proof fn lemma_utf8_len_ge(t: Seq<char>)
    ensures
        utf8_len_seq(t) >= t.len(),
    decreases t.len(),
{
    if t.len() > 0 {
        lemma_utf8_len_ge(t.drop_last());
    }
}

// ---------------------------------------------------------------------
// Blocks, paragraphs and files
// ---------------------------------------------------------------------

proof fn lemma_children_end(s: Seq<char>, i: int, floats: Seq<(Seq<char>, u64)>, acc: Seq<CstNodeV>)
    requires
        0 <= i <= s.len(),
    ensures
        i <= p_block_children(s, i, floats, acc).0 <= s.len(),
    decreases s.len() - i,
{
    if i < s.len() {
        lemma_trivias(s, i);
        match block_step(s, i, floats) {
            BlockStepV::Node(j, n) => if i < j <= s.len() {
                lemma_children_end(s, j, floats, acc.push(n));
            },
            BlockStepV::Skip => lemma_children_end(s, i + 1, floats, acc),
            _ => {},
        }
    }
}

proof fn lemma_block_end(s: Seq<char>, i: int, floats: Seq<(Seq<char>, u64)>)
    requires
        0 <= i <= s.len(),
    ensures
        p_block(s, i, floats).0 matches Some((j, _)) ==> i < j <= s.len(),
{
    if at(s, i, '{') {
        lemma_children_end(s, i + 1, floats, Seq::empty());
    }
}

/// A step inside a block where nothing but an attribute, a command, a
/// system call or a text line can start reads at least one character.
proof fn lemma_line_step(s: Seq<char>, i: int, f: int, floats: Seq<(Seq<char>, u64)>)
    requires
        error_lines_fit(s),
        0 <= i < s.len(),
        f == trimmed_start(s, i),
        p_trivia(s, i) is None,
    ensures
        line_step(s, i, f, floats) matches BlockStepV::Node(j, _) ==> i < j <= s.len(),
        !(line_step(s, i, f, floats) is Stuck),
{
    lemma_attribute(s, i);
    lemma_call(s, i, floats, '@');
    lemma_call(s, i, floats, '#');
    lemma_error_line(s, i, crate::cst_grammar::command_error_message());
    lemma_error_line(s, i, crate::cst_grammar::system_call_error_message());
    lemma_text_line(s, i);
}

/// Each step inside a block reads at least one character or ends the
/// block, where the nested block at `i`, if any, is read to its end.
proof fn lemma_block_step(s: Seq<char>, i: int, floats: Seq<(Seq<char>, u64)>)
    requires
        error_lines_fit(s),
        0 <= i < s.len(),
        !p_block(s, i, floats).1,
    ensures
        block_step(s, i, floats) matches BlockStepV::Node(j, _) ==> i < j <= s.len(),
        !(block_step(s, i, floats) is Stuck),
{
    lemma_trivia(s, i);
    lemma_embedded(s, i);
    lemma_block_end(s, i, floats);
    if p_trivia(s, i) is None {
        lemma_line_step(s, i, trimmed_start(s, i), floats);
    }
}

proof fn lemma_children_finish(
    s: Seq<char>,
    i: int,
    floats: Seq<(Seq<char>, u64)>,
    acc: Seq<CstNodeV>,
)
    requires
        error_lines_fit(s),
        0 <= i,
    ensures
        !p_block_children(s, i, floats, acc).2,
    decreases s.len() - i, 2nat,
{
    if i < s.len() {
        lemma_block_finish(s, i, floats);
        lemma_block_step(s, i, floats);
        match block_step(s, i, floats) {
            BlockStepV::Node(j, n) => lemma_children_finish(s, j, floats, acc.push(n)),
            BlockStepV::Skip => lemma_children_finish(s, i + 1, floats, acc),
            _ => {},
        }
    }
}

proof fn lemma_block_finish(s: Seq<char>, i: int, floats: Seq<(Seq<char>, u64)>)
    requires
        error_lines_fit(s),
        0 <= i,
    ensures
        !p_block(s, i, floats).1,
    decreases s.len() - i, 0nat,
{
    if at(s, i, '{') {
        lemma_children_finish(s, i + 1, floats, Seq::empty());
    }
}

proof fn lemma_parameter(s: Seq<char>, i: int, floats: Seq<(Seq<char>, u64)>)
    requires
        0 <= i <= s.len(),
    ensures
        p_parameter(s, i, floats) matches Some((e, _)) ==> i < e <= s.len(),
{
    lemma_trivias(s, i);
    let t = p_trivias(s, i).0;
    lemma_identifier(s, t);
    if let Some((j, _)) = p_identifier(s, t) {
        lemma_scan(s, j, CharClass::SpaceTab);
        let e = scan(s, j, CharClass::SpaceTab);
        if at(s, e, '=') {
            lemma_scan(s, e + 1, CharClass::SpaceTab);
            lemma_value(s, scan(s, e + 1, CharClass::SpaceTab), floats);
        }
        let m = if at(s, e, '=') && p_value(s, scan(s, e + 1, CharClass::SpaceTab), floats) is Some {
            (p_value(s, scan(s, e + 1, CharClass::SpaceTab), floats)->0).0
        } else {
            j
        };
        lemma_trivias(s, m);
    }
}

proof fn lemma_comma_params_from(
    s: Seq<char>,
    i: int,
    floats: Seq<(Seq<char>, u64)>,
    acc: Seq<crate::cst::CstParameterV>,
)
    requires
        0 <= i <= s.len(),
    ensures
        i <= p_comma_params_from(s, i, floats, acc).0 <= s.len(),
    decreases s.len() - i,
{
    lemma_scan(s, i, CharClass::SpaceTab);
    let x = scan(s, i, CharClass::SpaceTab);
    let y = scan(s, x + 1, CharClass::SpaceTab);
    if at(s, x, ',') && p_parameter(s, y, floats) is Some {
        let (k, p) = p_parameter(s, y, floats)->0;
        if i < k <= s.len() {
            lemma_comma_params_from(s, k, floats, acc.push(p));
        }
    }
}

proof fn lemma_parameters(s: Seq<char>, i: int, floats: Seq<(Seq<char>, u64)>)
    requires
        0 <= i <= s.len(),
    ensures
        p_parameters(s, i, floats) matches Some((k, _, _, _)) ==> i < k <= s.len(),
{
    lemma_scan(s, i, CharClass::SpaceTab);
    let a = scan(s, i, CharClass::SpaceTab);
    if at(s, a, '(') {
        lemma_scan(s, a + 1, CharClass::SpaceTab);
        let b = scan(s, a + 1, CharClass::SpaceTab);
        lemma_parameter(s, b, floats);
        let c = match p_parameter(s, b, floats) {
            Some((j, p)) => {
                lemma_comma_params_from(s, j, floats, seq![p]);
                p_comma_params_from(s, j, floats, seq![p]).0
            },
            None => b,
        };
        lemma_scan(s, c, CharClass::SpaceTab);
    }
}

proof fn lemma_paragraph(s: Seq<char>, i: int, floats: Seq<(Seq<char>, u64)>)
    requires
        error_lines_fit(s),
        0 <= i <= s.len(),
    ensures
        !p_paragraph(s, i, floats).1,
        p_paragraph(s, i, floats).0 matches Some((e, _)) ==> i < e <= s.len(),
{
    lemma_trivias(s, i);
    let t = p_trivias(s, i).0;
    lemma_identifier(s, t + 2);
    if at(s, t, ':') && at(s, t + 1, ':') && p_identifier(s, t + 2) is Some {
        let j = (p_identifier(s, t + 2)->0).0;
        lemma_parameters(s, j, floats);
        let k = match p_parameters(s, j, floats) {
            Some((k, _, _, _)) => k,
            None => j,
        };
        lemma_scan(s, k, CharClass::SpaceTab);
        let m = scan(s, k, CharClass::SpaceTab);
        lemma_block_finish(s, m, floats);
        lemma_block_end(s, m, floats);
    }
}

proof fn lemma_root_finish(s: Seq<char>, i: int, floats: Seq<(Seq<char>, u64)>, acc: Seq<CstNodeV>)
    requires
        error_lines_fit(s),
        0 <= i,
    ensures
        !p_root_nodes(s, i, floats, acc).1,
    decreases s.len() - i,
{
    if i < s.len() {
        lemma_trivia(s, i);
        lemma_paragraph(s, i, floats);
        lemma_call(s, i, floats, '@');
        lemma_call(s, i, floats, '#');
        if let Some((j, t)) = p_trivia(s, i) {
            lemma_root_finish(s, j, floats, acc.push(CstNodeV::Trivia(t)));
        } else if let Some((j, p)) = p_paragraph(s, i, floats).0 {
            lemma_root_finish(s, j, floats, acc.push(CstNodeV::Paragraph(p)));
        } else if let Some((j, c)) = p_call(s, i, floats, '@') {
            lemma_root_finish(s, j, floats, acc.push(CstNodeV::Command(c)));
        } else if let Some((j, c)) = p_call(s, i, floats, '#') {
            lemma_root_finish(s, j, floats, acc.push(CstNodeV::SystemCall(c)));
        } else {
            lemma_root_finish(s, i + 1, floats, acc);
        }
    }
}

/// The reader finishes on every text where each line, skipped as a line
/// that cannot be read, leaves it inside the text: each of its steps
/// reads at least one character, and such a skip reads the line and its
/// line break.
pub proof fn law_reader_finishes_where_lines_fit(s: Seq<char>, floats: Seq<(Seq<char>, u64)>)
    requires
        error_lines_fit(s),
    ensures
        reader_finishes(s, floats),
{
    lemma_root_finish(s, 0, floats, Seq::empty());
}

/// The reader finishes on every text of ASCII characters. (Where a line
/// that cannot be read has characters of several bytes, the skip counts
/// bytes, and near the end of a text it can run past the end.)
pub proof fn law_reader_finishes_on_ascii(s: Seq<char>, floats: Seq<(Seq<char>, u64)>)
    requires
        is_ascii_chars(s),
    ensures
        reader_finishes(s, floats),
{
    lemma_ascii_lines_fit(s);
    law_reader_finishes_where_lines_fit(s, floats);
}

} // verus!
