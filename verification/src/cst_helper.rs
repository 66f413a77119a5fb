//! Queries on the concrete syntax tree and on the text of a line that an
//! editor needs: positions, the commands, system calls and paragraphs of
//! a file, and what is being typed at the cursor.
use vstd::prelude::*;

use crate::cst::{
    CstArgumentV, CstCallV, CstCommand, CstNode, CstNodeV, CstParagraph, CstParagraphV, CstRoot,
    CstSystemCall, CstValue, CstValueKind, CstValueV, cst_nodes_view, cst_paragraph_view,
};
use crate::span::SpanInfo;
use crate::format::strings_view;
use crate::text::{
    chars_of, is_ascii_alnum, is_unicode_whitespace, leading_ws, string_of, trim, unicode_whitespace,
};

verus! {

broadcast use vstd::std_specs::vec::axiom_vec_index_decreases;

// ---------------------------------------------------------------------
// Positions
// ---------------------------------------------------------------------

/// A position in a text document: a line and a character, both from 0.
#[derive(Debug, Clone, Copy, PartialEq, Eq, Structural)]
pub struct Position {
    pub line: u32,
    pub character: u32,
}

/// A range between two positions of a text document.
#[derive(Debug, Clone, Copy, PartialEq, Eq, Structural)]
pub struct Range {
    pub start: Position,
    pub end: Position,
}

/// The range of a span: lines from 0 instead of 1, columns as they are
/// (both narrowed to 32 bits).
pub fn span_to_range(span: &SpanInfo) -> (r: Range)
    requires
        span.start_line >= 1,
        span.end_line >= 1,
    ensures
        r.start.line == (span.start_line - 1) as u32,
        r.start.character == span.start_column as u32,
        r.end.line == (span.end_line - 1) as u32,
        r.end.character == span.end_column as u32,
{
    Range {
        start: Position {
            line: #[verifier::truncate] ((span.start_line - 1) as u32),
            character: #[verifier::truncate] (span.start_column as u32),
        },
        end: Position {
            line: #[verifier::truncate] ((span.end_line - 1) as u32),
            character: #[verifier::truncate] (span.end_column as u32),
        },
    }
}

/// Whether `pos` lies in `range`, its end excluded.
pub open spec fn range_contains(range: Range, pos: Position) -> bool {
    &&& range.start.line <= pos.line <= range.end.line
    &&& (pos.line == range.start.line ==> pos.character >= range.start.character)
    &&& (pos.line == range.end.line ==> pos.character < range.end.character)
}

/// Whether `pos` lies in `range`, its end excluded.
pub fn contains(range: &Range, pos: &Position) -> (r: bool)
    ensures
        r == range_contains(*range, *pos),
{
    if pos.line < range.start.line || pos.line > range.end.line {
        return false;
    }
    if pos.line == range.start.line && pos.character < range.start.character {
        return false;
    }
    if pos.line == range.end.line && pos.character >= range.end.character {
        return false;
    }
    true
}

// ---------------------------------------------------------------------
// Commands, system calls and paragraphs of a tree
// ---------------------------------------------------------------------

/// The commands of a node and of the blocks in it, in order.
pub open spec fn node_commands(n: CstNodeV) -> Seq<CstCallV>
    decreases n, 1nat,
{
    match n {
        CstNodeV::Command(c) => seq![c],
        CstNodeV::Paragraph(p) => nodes_commands(p.block.children),
        CstNodeV::Block(b) => nodes_commands(b.children),
        _ => Seq::empty(),
    }
}

pub open spec fn nodes_commands(ns: Seq<CstNodeV>) -> Seq<CstCallV>
    decreases ns, 0nat,
{
    if ns.len() == 0 {
        Seq::empty()
    } else {
        nodes_commands(ns.drop_last()) + node_commands(ns.last())
    }
}

/// The system calls of a node and of the blocks in it, in order.
pub open spec fn node_system_calls(n: CstNodeV) -> Seq<CstCallV>
    decreases n, 1nat,
{
    match n {
        CstNodeV::SystemCall(c) => seq![c],
        CstNodeV::Paragraph(p) => nodes_system_calls(p.block.children),
        CstNodeV::Block(b) => nodes_system_calls(b.children),
        _ => Seq::empty(),
    }
}

pub open spec fn nodes_system_calls(ns: Seq<CstNodeV>) -> Seq<CstCallV>
    decreases ns, 0nat,
{
    if ns.len() == 0 {
        Seq::empty()
    } else {
        nodes_system_calls(ns.drop_last()) + node_system_calls(ns.last())
    }
}

/// The top-level paragraphs of a list of nodes, in order.
pub open spec fn nodes_paragraphs(ns: Seq<CstNodeV>) -> Seq<CstParagraphV>
    decreases ns.len(),
{
    if ns.len() == 0 {
        Seq::empty()
    } else {
        nodes_paragraphs(ns.drop_last()) + match ns.last() {
            CstNodeV::Paragraph(p) => seq![p],
            _ => Seq::empty(),
        }
    }
}

fn collect_node_commands<'a>(n: &'a CstNode, out: &mut Vec<&'a CstCommand>)
    ensures
        final(out)@.map_values(|c: &CstCommand| c@) == old(out)@.map_values(|c: &CstCommand| c@)
            + node_commands(n@),
    decreases n, 1nat,
{
    let ghost start = out@.map_values(|c: &CstCommand| c@);
    match n {
        CstNode::Command(c) => {
            out.push(c);
            assert(out@.map_values(|c: &CstCommand| c@) =~= start + seq![c@]);
        },
        CstNode::Paragraph(p) => {
            assert(decreases_to!(*n => p.block));
            collect_nodes_commands(&p.block.children, out);
        },
        CstNode::Block(b) => {
            collect_nodes_commands(&b.children, out);
        },
        _ => {
            assert(out@.map_values(|c: &CstCommand| c@) =~= start + node_commands(n@));
        },
    }
}

fn collect_nodes_commands<'a>(ns: &'a Vec<CstNode>, out: &mut Vec<&'a CstCommand>)
    ensures
        final(out)@.map_values(|c: &CstCommand| c@) == old(out)@.map_values(|c: &CstCommand| c@)
            + nodes_commands(cst_nodes_view(*ns)),
    decreases ns, 0nat,
{
    let ghost start = out@.map_values(|c: &CstCommand| c@);
    let ghost nv = cst_nodes_view(*ns);
    let mut k: usize = 0;
    assert(start + nodes_commands(nv.take(0)) =~= start);
    while k < ns.len()
        invariant
            0 <= k <= ns@.len(),
            nv == cst_nodes_view(*ns),
            nv.len() == ns@.len(),
            out@.map_values(|c: &CstCommand| c@) == start + nodes_commands(nv.take(k as int)),
        decreases ns.len() - k,
    {
        assert(nv.take(k + 1).drop_last() =~= nv.take(k as int));
        assert(nv.take(k + 1).last() == ns@[k as int]@);
        assert(decreases_to!(*ns => ns@[k as int]));
        collect_node_commands(&ns[k], out);
        k += 1;
        assert(out@.map_values(|c: &CstCommand| c@) =~= start + nodes_commands(nv.take(k as int)));
    }
    assert(nv.take(k as int) =~= nv);
}

/// Every command of a tree, inside paragraphs and blocks too, in order.
pub fn extract_commands(cst: &CstRoot) -> (r: Vec<&CstCommand>)
    ensures
        r@.map_values(|c: &CstCommand| c@) == nodes_commands(cst@.nodes),
{
    let mut out: Vec<&CstCommand> = Vec::new();
    assert(out@.map_values(|c: &CstCommand| c@) =~= Seq::<CstCallV>::empty());
    collect_nodes_commands(&cst.nodes, &mut out);
    assert(out@.map_values(|c: &CstCommand| c@) =~= nodes_commands(cst@.nodes));
    out
}

fn collect_node_system_calls<'a>(n: &'a CstNode, out: &mut Vec<&'a CstSystemCall>)
    ensures
        final(out)@.map_values(|c: &CstSystemCall| c@) == old(out)@.map_values(
            |c: &CstSystemCall| c@,
        ) + node_system_calls(n@),
    decreases n, 1nat,
{
    let ghost start = out@.map_values(|c: &CstSystemCall| c@);
    match n {
        CstNode::SystemCall(c) => {
            out.push(c);
            assert(out@.map_values(|c: &CstSystemCall| c@) =~= start + seq![c@]);
        },
        CstNode::Paragraph(p) => {
            assert(decreases_to!(*n => p.block));
            collect_nodes_system_calls(&p.block.children, out);
        },
        CstNode::Block(b) => {
            collect_nodes_system_calls(&b.children, out);
        },
        _ => {
            assert(out@.map_values(|c: &CstSystemCall| c@) =~= start + node_system_calls(n@));
        },
    }
}

fn collect_nodes_system_calls<'a>(ns: &'a Vec<CstNode>, out: &mut Vec<&'a CstSystemCall>)
    ensures
        final(out)@.map_values(|c: &CstSystemCall| c@) == old(out)@.map_values(
            |c: &CstSystemCall| c@,
        ) + nodes_system_calls(cst_nodes_view(*ns)),
    decreases ns, 0nat,
{
    let ghost start = out@.map_values(|c: &CstSystemCall| c@);
    let ghost nv = cst_nodes_view(*ns);
    let mut k: usize = 0;
    assert(start + nodes_system_calls(nv.take(0)) =~= start);
    while k < ns.len()
        invariant
            0 <= k <= ns@.len(),
            nv == cst_nodes_view(*ns),
            nv.len() == ns@.len(),
            out@.map_values(|c: &CstSystemCall| c@) == start + nodes_system_calls(
                nv.take(k as int),
            ),
        decreases ns.len() - k,
    {
        assert(nv.take(k + 1).drop_last() =~= nv.take(k as int));
        assert(nv.take(k + 1).last() == ns@[k as int]@);
        assert(decreases_to!(*ns => ns@[k as int]));
        collect_node_system_calls(&ns[k], out);
        k += 1;
        assert(out@.map_values(|c: &CstSystemCall| c@) =~= start + nodes_system_calls(
            nv.take(k as int),
        ));
    }
    assert(nv.take(k as int) =~= nv);
}

/// Every system call of a tree, inside paragraphs and blocks too, in
/// order.
pub fn extract_system_calls(cst: &CstRoot) -> (r: Vec<&CstSystemCall>)
    ensures
        r@.map_values(|c: &CstSystemCall| c@) == nodes_system_calls(cst@.nodes),
{
    let mut out: Vec<&CstSystemCall> = Vec::new();
    assert(out@.map_values(|c: &CstSystemCall| c@) =~= Seq::<CstCallV>::empty());
    collect_nodes_system_calls(&cst.nodes, &mut out);
    assert(out@.map_values(|c: &CstSystemCall| c@) =~= nodes_system_calls(cst@.nodes));
    out
}

/// The paragraphs at the top level of a tree, in order.
pub fn extract_paragraphs(cst: &CstRoot) -> (r: Vec<&CstParagraph>)
    ensures
        r@.map_values(|p: &CstParagraph| cst_paragraph_view(*p)) == nodes_paragraphs(cst@.nodes),
{
    let ghost nv = cst@.nodes;
    let mut out: Vec<&CstParagraph> = Vec::new();
    let mut k: usize = 0;
    assert(out@.map_values(|p: &CstParagraph| cst_paragraph_view(*p)) =~= nodes_paragraphs(
        nv.take(0),
    ));
    while k < cst.nodes.len()
        invariant
            0 <= k <= cst.nodes@.len(),
            nv == cst@.nodes,
            nv.len() == cst.nodes@.len(),
            out@.map_values(|p: &CstParagraph| cst_paragraph_view(*p)) == nodes_paragraphs(
                nv.take(k as int),
            ),
        decreases cst.nodes.len() - k,
    {
        let ghost before = out@.map_values(|p: &CstParagraph| cst_paragraph_view(*p));
        assert(nv.take(k + 1).drop_last() =~= nv.take(k as int));
        assert(nv.take(k + 1).last() == cst.nodes@[k as int]@);
        if let CstNode::Paragraph(p) = &cst.nodes[k] {
            out.push(p);
            assert(out@.map_values(|p: &CstParagraph| cst_paragraph_view(*p)) =~= before.push(
                cst_paragraph_view(*p),
            ));
        }
        k += 1;
        assert(out@.map_values(|p: &CstParagraph| cst_paragraph_view(*p)) =~= nodes_paragraphs(
            nv.take(k as int),
        ));
    }
    assert(nv.take(k as int) =~= nv);
    out
}

// ---------------------------------------------------------------------
// The value of a system call argument
// ---------------------------------------------------------------------

/// The text of a value: a string without its quotes, any other value
/// as written.
pub open spec fn value_text(v: CstValueV) -> Seq<char> {
    match v.kind {
        CstValueKind::String { .. } => {
            let s = trim(v.raw);
            if s.len() > 0 && ((s[0] == '"' && s.last() == '"') || (s[0] == '\'' && s.last()
                == '\'')) {
                s.subrange(1, s.len() - 1)
            } else {
                v.raw
            }
        },
        _ => v.raw,
    }
}

/// The text of the value of the first argument named `name` that has a
/// value.
pub open spec fn argument_value(args: Seq<CstArgumentV>, name: Seq<char>) -> Option<Seq<char>>
    decreases args.len(),
{
    if args.len() == 0 {
        None
    } else if args[0].name == name && args[0].value is Some {
        Some(value_text(args[0].value->0))
    } else {
        argument_value(args.drop_first(), name)
    }
}

/// A string value whose trimmed text is a lone quote character.
pub open spec fn lone_quote(v: CstValueV) -> bool {
    &&& v.kind is String
    &&& (trim(v.raw) == seq!['"'] || trim(v.raw) == seq!['\''])
}

/// The value of the first argument of `call` named `arg_name` that has a
/// value: a string without its quotes, any other value as written.
pub fn get_systemcall_argument_value(call: &CstSystemCall, arg_name: &str) -> (r: Option<String>)
    requires
        forall|i: int|
            0 <= i < call@.arguments.len() && (#[trigger] call@.arguments[i]).name == arg_name@
                && call@.arguments[i].value is Some ==> !lone_quote(
                call@.arguments[i].value->0,
            ),
    ensures
        match r {
            Some(s) => argument_value(call@.arguments, arg_name@) == Some(s@),
            None => argument_value(call@.arguments, arg_name@) is None,
        },
{
    let ghost args = call@.arguments;
    let mut k: usize = 0;
    assert(args.skip(0) =~= args);
    while k < call.arguments.len()
        invariant
            0 <= k <= call.arguments@.len(),
            args == call@.arguments,
            args.len() == call.arguments@.len(),
            argument_value(args.skip(k as int), arg_name@) == argument_value(args, arg_name@),
            forall|i: int|
                0 <= i < args.len() && (#[trigger] args[i]).name == arg_name@ && args[i].value is Some
                    ==> !lone_quote(args[i].value->0),
        decreases call.arguments.len() - k,
    {
        let arg = &call.arguments[k];
        let ghost rest = args.skip(k as int);
        assert(rest[0] == arg@);
        assert(rest.drop_first() =~= args.skip(k + 1));
        if crate::text::str_eq(arg.name.as_str(), arg_name) {
            if let Some(v) = &arg.value {
                assert(!lone_quote(args[k as int].value->0));
                return Some(value_text_exec(v));
            }
        }
        k += 1;
    }
    None
}

fn value_text_exec(v: &CstValue) -> (r: String)
    requires
        !lone_quote(v@),
    ensures
        r@ == value_text(v@),
{
    match v.kind {
        CstValueKind::String { .. } => {
            let cs = chars_of(v.raw.as_str());
            let lo = crate::text::skip_ws_forward(&cs, 0, cs.len());
            let hi = crate::text::skip_ws_backward(&cs, lo, cs.len());
            proof {
                let x = cs@.subrange(0, cs@.len() as int);
                assert(x =~= cs@);
                assert(x.skip(lo as int) =~= cs@.subrange(lo as int, cs@.len() as int));
                let t = cs@.subrange(lo as int, cs@.len() as int);
                assert(t.take(t.len() - (cs@.len() - hi)) =~= cs@.subrange(lo as int, hi as int));
            }
            let ghost s = cs@.subrange(lo as int, hi as int);
            if hi > lo && ((cs[lo] == '"' && cs[hi - 1] == '"') || (cs[lo] == '\'' && cs[hi - 1]
                == '\'')) {
                if hi - lo == 1 {
                    assert(s =~= seq![cs@[lo as int]]);
                }
                let r = string_of(cs.as_slice(), lo + 1, hi - 1);
                assert(r@ =~= s.subrange(1, s.len() - 1));
                r
            } else {
                v.raw.clone()
            }
        },
        _ => v.raw.clone(),
    }
}

// ---------------------------------------------------------------------
// Strings in a line
// ---------------------------------------------------------------------

/// Whether the text so far is inside a double-quoted, a single-quoted
/// and a template string, and whether the next character is escaped.
pub open spec fn quote_step(st: (bool, bool, bool, bool), c: char) -> (bool, bool, bool, bool) {
    let (d, s, t, e) = st;
    if e {
        (d, s, t, false)
    } else if c == '\\' {
        (d, s, t, true)
    } else if c == '"' && !s && !t {
        (!d, s, t, false)
    } else if c == '\'' && !d && !t {
        (d, !s, t, false)
    } else if c == '`' && !d && !s {
        (d, s, !t, false)
    } else {
        (d, s, t, false)
    }
}

pub open spec fn quote_state(p: Seq<char>) -> (bool, bool, bool, bool)
    decreases p.len(),
{
    if p.len() == 0 {
        (false, false, false, false)
    } else {
        quote_step(quote_state(p.drop_last()), p.last())
    }
}

/// Whether a line that starts with `p` continues inside a string.
pub open spec fn inside_string(p: Seq<char>) -> bool {
    let st = quote_state(p);
    st.0 || st.1 || st.2
}

fn inside_string_chars(v: &Vec<char>, lo: usize, hi: usize) -> (r: bool)
    requires
        lo <= hi <= v@.len(),
    ensures
        r == inside_string(v@.subrange(lo as int, hi as int)),
{
    let mut d = false;
    let mut s = false;
    let mut t = false;
    let mut e = false;
    let mut k = lo;
    assert(v@.subrange(lo as int, lo as int) =~= Seq::<char>::empty());
    while k < hi
        invariant
            lo <= k <= hi <= v@.len(),
            (d, s, t, e) == quote_state(v@.subrange(lo as int, k as int)),
        decreases hi - k,
    {
        let c = v[k];
        assert(v@.subrange(lo as int, k + 1).drop_last() =~= v@.subrange(lo as int, k as int));
        if e {
            e = false;
        } else if c == '\\' {
            e = true;
        } else if c == '"' && !s && !t {
            d = !d;
        } else if c == '\'' && !d && !t {
            s = !s;
        } else if c == '`' && !d && !s {
            t = !t;
        }
        k += 1;
    }
    d || s || t
}

/// Whether the text of a line up to the cursor is inside a string,
/// escaped quotes taken into account.
pub fn is_inside_string(line_prefix: &str) -> (r: bool)
    ensures
        r == inside_string(line_prefix@),
{
    let v = chars_of(line_prefix);
    let r = inside_string_chars(&v, 0, v.len());
    assert(v@.subrange(0, v@.len() as int) =~= line_prefix@);
    r
}

// ---------------------------------------------------------------------
// The command at the cursor
// ---------------------------------------------------------------------

/// `char::is_alphanumeric` on a character beyond ASCII: whether it is
/// alphabetic or numeric in Unicode.
pub uninterp spec fn char_is_alphanumeric(c: char) -> bool;

/// Whether a character is alphabetic or numeric (`char::is_alphanumeric`):
/// in ASCII, exactly the letters and digits.
pub open spec fn alphanumeric(c: char) -> bool {
    if (c as u32) < 0x80 {
        is_ascii_alnum(c)
    } else {
        char_is_alphanumeric(c)
    }
}

/// `char::is_alphanumeric`, called for a character beyond ASCII: std gives
/// the Unicode `Alphabetic` or `Numeric` property of the character; the
/// contract names that result and says no more of it.
#[verifier::external_body]
fn unicode_is_alphanumeric(c: char) -> (r: bool)
    ensures
        r == char_is_alphanumeric(c),
{
    c.is_alphanumeric()
}

/// Whether a character is alphabetic or numeric: decided here for ASCII,
/// by std for the rest.
pub(crate) fn is_alphanumeric(c: char) -> (r: bool)
    ensures
        r == alphanumeric(c),
{
    if (c as u32) < 0x80 {
        crate::text::ascii_alnum(c)
    } else {
        unicode_is_alphanumeric(c)
    }
}

/// The first index at or after `i` whose character fails `p`.
pub open spec fn skip_while(s: Seq<char>, i: int, p: spec_fn(char) -> bool) -> int
    decreases s.len() - i,
{
    if i < 0 || i >= s.len() || !p(s[i]) {
        i
    } else {
        skip_while(s, i + 1, p)
    }
}

pub open spec fn ws_or_comma() -> spec_fn(char) -> bool {
    |c: char| is_unicode_whitespace(c) || c == ','
}

pub open spec fn ws() -> spec_fn(char) -> bool {
    |c: char| is_unicode_whitespace(c)
}

pub open spec fn name_char() -> spec_fn(char) -> bool {
    |c: char| alphanumeric(c) || c == '_'
}

pub open spec fn bare_value_char() -> spec_fn(char) -> bool {
    |c: char| !is_unicode_whitespace(c) && c != ',' && c != ')'
}

/// The end of a quoted value from `k`, a backslash skipping the next
/// character: the index of the closing quote, or past the end.
pub open spec fn quoted_value_end(c: Seq<char>, k: int, q: char) -> int
    decreases c.len() + 2 - k,
{
    if 0 <= k < c.len() && c[k] != q {
        if c[k] == '\\' {
            quoted_value_end(c, k + 2, q)
        } else {
            quoted_value_end(c, k + 1, q)
        }
    } else {
        k
    }
}

/// Where the scan goes on after an argument name that ends at `b`: past
/// `= value` where there is one, else past the whitespace after the name.
pub open spec fn after_argument(c: Seq<char>, b: int) -> int {
    let w = skip_while(c, b, ws());
    if 0 <= w < c.len() && c[w] == '=' {
        let v = skip_while(c, w + 1, ws());
        if 0 <= v < c.len() {
            if c[v] == '"' || c[v] == '\'' || c[v] == '`' {
                let k = quoted_value_end(c, v + 1, c[v]);
                if k < c.len() {
                    k + 1
                } else {
                    k
                }
            } else {
                skip_while(c, v, bare_value_char())
            }
        } else {
            v
        }
    } else {
        w
    }
}

/// The argument names of `c` from `i`, appended to `acc`. A character
/// that starts no name and is neither whitespace nor a comma is skipped.
pub open spec fn names_from(c: Seq<char>, i: int, acc: Seq<Seq<char>>) -> Seq<Seq<char>>
    decreases c.len() + 2 - i,
{
    let a = skip_while(c, i, ws_or_comma());
    if i < 0 || a >= c.len() {
        acc
    } else {
        let b = skip_while(c, a, name_char());
        let e = after_argument(c, b);
        if b == a {
            if i <= a {
                names_from(c, a + 1, acc)
            } else {
                acc
            }
        } else if i < e <= c.len() + 1 {
            names_from(c, e, acc.push(c.subrange(a, b)))
        } else {
            acc.push(c.subrange(a, b))
        }
    }
}

/// The first index of `x` in `s`, if any.
pub open spec fn first_index(s: Seq<char>, x: char) -> Option<int> {
    crate::cst_grammar::find_char(s, 0, x)
}

/// The part of the text after a command name that holds its arguments:
/// inside the parentheses, or all of it.
pub open spec fn argument_text(after_cmd: Seq<char>, is_paren: bool) -> Seq<char> {
    if is_paren {
        let start = match first_index(after_cmd, '(') {
            Some(k) => k + 1,
            None => 0,
        };
        let end = match first_index(after_cmd, ')') {
            Some(k) => k,
            None => after_cmd.len() as int,
        };
        after_cmd.subrange(start, end)
    } else {
        after_cmd
    }
}

/// Whether the parentheses of the argument text come in an order that
/// can be cut at.
pub open spec fn argument_text_ok(after_cmd: Seq<char>, is_paren: bool) -> bool {
    is_paren ==> (match first_index(after_cmd, ')') {
        Some(e) => match first_index(after_cmd, '(') {
            Some(k) => k + 1 <= e,
            None => true,
        },
        None => true,
    })
}

/// The names of the arguments written in the text after a command name.
pub open spec fn argument_names(after_cmd: Seq<char>, is_paren: bool) -> Seq<Seq<char>> {
    names_from(argument_text(after_cmd, is_paren), 0, Seq::empty())
}

pub open spec fn last_index(s: Seq<char>, x: char) -> Option<int>
    decreases s.len(),
{
    if s.len() == 0 {
        None
    } else if s.last() == x {
        Some(s.len() - 1)
    } else {
        last_index(s.drop_last(), x)
    }
}

pub open spec fn name_end_char() -> spec_fn(char) -> bool {
    |c: char| !is_unicode_whitespace(c) && c != '('
}

/// How many characters of a line lie before the cursor: the cursor
/// column, and at most the line.
pub open spec fn prefix_len(n: int, cursor: int) -> int {
    if cursor <= n {
        cursor
    } else {
        n
    }
}

/// The name of the command or system call being typed at the cursor,
/// whether its arguments are in parentheses, and the text after the
/// name; `None` inside a string, without a call, with an empty name or
/// after the closing parenthesis.
pub open spec fn command_parts(line: Seq<char>, cursor: int) -> Option<(Seq<char>, bool, Seq<char>)> {
    let p = prefix_len(line.len() as int, cursor);
    let prefix = line.subrange(0, p);
    let trigger = match (last_index(prefix, '@'), last_index(prefix, '#')) {
        (Some(a), Some(h)) => Some(
            if a > h {
                a
            } else {
                h
            },
        ),
        (Some(a), None) => Some(a),
        (None, Some(h)) => Some(h),
        (None, None) => None,
    };
    if inside_string(prefix) || trigger is None {
        None
    } else {
        let after = prefix.subrange(trigger->0 + 1, p);
        let cmd_end = skip_while(after, 0, name_end_char());
        let after_cmd = after.subrange(cmd_end, after.len() as int);
        let is_paren = leading_ws(after_cmd) < after_cmd.len() && after_cmd[leading_ws(
            after_cmd,
        ) as int] == '(';
        if cmd_end == 0 || (is_paren && first_index(after_cmd, ')') is Some) {
            None
        } else {
            Some((after.subrange(0, cmd_end), is_paren, after_cmd))
        }
    }
}

/// What `find_command_at_position` gives.
pub open spec fn command_at(line: Seq<char>, cursor: int) -> Option<(Seq<char>, bool, Seq<Seq<char>>)> {
    match command_parts(line, cursor) {
        Some((name, paren, after_cmd)) => Some((name, paren, argument_names(after_cmd, paren))),
        None => None,
    }
}

proof fn lemma_skip_while_stop(s: Seq<char>, i: int, j: int, p: spec_fn(char) -> bool)
    requires
        0 <= i <= j <= s.len(),
        forall|m: int| i <= m < j ==> p(#[trigger] s[m]),
        j == s.len() || !p(s[j]),
    ensures
        skip_while(s, i, p) == j,
    decreases j - i,
{
    if i < j {
        lemma_skip_while_stop(s, i + 1, j, p);
    }
}

proof fn lemma_skip_while_bounds(s: Seq<char>, i: int, p: spec_fn(char) -> bool)
    requires
        0 <= i,
    ensures
        i <= skip_while(s, i, p),
        i <= s.len() ==> skip_while(s, i, p) <= s.len(),
    decreases s.len() - i,
{
    if i < s.len() && p(s[i]) {
        lemma_skip_while_bounds(s, i + 1, p);
    }
}

fn skip_ws(v: &Vec<char>, i: usize) -> (r: usize)
    requires
        i <= v@.len(),
    ensures
        r == skip_while(v@, i as int, ws()),
        i <= r <= v@.len(),
        forall|m: int| i <= m < r ==> is_unicode_whitespace(#[trigger] v@[m]),
        r == v@.len() || !is_unicode_whitespace(v@[r as int]),
{
    let mut k = i;
    while k < v.len() && unicode_whitespace(v[k])
        invariant
            i <= k <= v@.len(),
            forall|m: int| i <= m < k ==> (ws())(#[trigger] v@[m]),
        decreases v.len() - k,
    {
        k += 1;
    }
    proof {
        lemma_skip_while_stop(v@, i as int, k as int, ws());
    }
    k
}

fn skip_ws_or_comma(v: &Vec<char>, i: usize) -> (r: usize)
    requires
        i <= v@.len(),
    ensures
        r == skip_while(v@, i as int, ws_or_comma()),
        i <= r <= v@.len(),
{
    let mut k = i;
    while k < v.len() && (unicode_whitespace(v[k]) || v[k] == ',')
        invariant
            i <= k <= v@.len(),
            forall|m: int| i <= m < k ==> (ws_or_comma())(#[trigger] v@[m]),
        decreases v.len() - k,
    {
        k += 1;
    }
    proof {
        lemma_skip_while_stop(v@, i as int, k as int, ws_or_comma());
    }
    k
}

fn skip_name(v: &Vec<char>, i: usize) -> (r: usize)
    requires
        i <= v@.len(),
    ensures
        r == skip_while(v@, i as int, name_char()),
        i <= r <= v@.len(),
{
    let mut k = i;
    while k < v.len() && (is_alphanumeric(v[k]) || v[k] == '_')
        invariant
            i <= k <= v@.len(),
            forall|m: int| i <= m < k ==> (name_char())(#[trigger] v@[m]),
        decreases v.len() - k,
    {
        k += 1;
    }
    proof {
        lemma_skip_while_stop(v@, i as int, k as int, name_char());
    }
    k
}

fn skip_bare_value(v: &Vec<char>, i: usize) -> (r: usize)
    requires
        i <= v@.len(),
    ensures
        r == skip_while(v@, i as int, bare_value_char()),
        i <= r <= v@.len(),
{
    let mut k = i;
    while k < v.len() && !unicode_whitespace(v[k]) && v[k] != ',' && v[k] != ')'
        invariant
            i <= k <= v@.len(),
            forall|m: int| i <= m < k ==> (bare_value_char())(#[trigger] v@[m]),
        decreases v.len() - k,
    {
        k += 1;
    }
    proof {
        lemma_skip_while_stop(v@, i as int, k as int, bare_value_char());
    }
    k
}

fn after_argument_exec(v: &Vec<char>, b: usize) -> (r: usize)
    requires
        b <= v@.len(),
        v@.len() + 2 < usize::MAX,
    ensures
        r == after_argument(v@, b as int),
        b <= r <= v@.len() + 1,
{
    let w = skip_ws(v, b);
    if w < v.len() && v[w] == '=' {
        let x = skip_ws(v, w + 1);
        if x < v.len() {
            if v[x] == '"' || v[x] == '\'' || v[x] == '`' {
                let q = v[x];
                let mut k = x + 1;
                while k < v.len() && v[k] != q
                    invariant
                        x < k <= v@.len() + 1,
                        v@.len() + 2 < usize::MAX,
                        q == v@[x as int],
                        quoted_value_end(v@, k as int, q) == quoted_value_end(v@, x + 1, q),
                    decreases v@.len() + 2 - k,
                {
                    if v[k] == '\\' {
                        k += 2;
                    } else {
                        k += 1;
                    }
                }
                if k < v.len() {
                    k + 1
                } else {
                    k
                }
            } else {
                skip_bare_value(v, x)
            }
        } else {
            x
        }
    } else {
        w
    }
}

/// The names of the arguments written in `after_cmd`, the text after a
/// command name (inside its parentheses where `is_paren`): each run of
/// letters, digits and `_` after whitespace or a comma, with any
/// `= value` after it skipped.
pub fn extract_argument_names(after_cmd: &str, is_paren: bool) -> (r: Vec<String>)
    requires
        after_cmd@.len() + 4 < usize::MAX,
        argument_text_ok(after_cmd@, is_paren),
    ensures
        strings_view(r@) == argument_names(after_cmd@, is_paren),
{
    let all = chars_of(after_cmd);
    let c = argument_text_exec(&all, is_paren);
    let ghost cs = c@;
    let mut names: Vec<String> = Vec::new();
    let mut i: usize = 0;
    assert(strings_view(names@) =~= Seq::<Seq<char>>::empty());
    while i < c.len()
        invariant
            cs == c@,
            cs == argument_text(after_cmd@, is_paren),
            cs.len() + 4 < usize::MAX,
            i <= cs.len() + 1,
            names_from(cs, i as int, strings_view(names@)) == argument_names(after_cmd@, is_paren),
        ensures
            names_from(cs, i as int, strings_view(names@)) == strings_view(names@),
        decreases cs.len() + 2 - i,
    {
        let a = skip_ws_or_comma(&c, i);
        if a >= c.len() {
            break;
        }
        let b = skip_name(&c, a);
        if b == a {
            i = a + 1;
            continue;
        }
        let e = after_argument_exec(&c, b);
        let name = string_of(c.as_slice(), a, b);
        let ghost before = strings_view(names@);
        names.push(name);
        assert(strings_view(names@) =~= before.push(cs.subrange(a as int, b as int)));
        i = e;
    }
    names
}

fn find_exec(v: &Vec<char>, x: char) -> (r: Option<usize>)
    ensures
        match r {
            Some(k) => first_index(v@, x) == Some(k as int) && k < v@.len(),
            None => first_index(v@, x) is None,
        },
{
    let mut k: usize = 0;
    while k < v.len() && v[k] != x
        invariant
            0 <= k <= v@.len(),
            forall|j: int| 0 <= j < k ==> #[trigger] v@[j] != x,
        decreases v.len() - k,
    {
        k += 1;
    }
    proof {
        crate::cst_parser::lemma_find_char_stop_pub(v@, 0, k as int, x);
    }
    if k < v.len() {
        Some(k)
    } else {
        None
    }
}

fn argument_text_exec(all: &Vec<char>, is_paren: bool) -> (r: Vec<char>)
    requires
        all@.len() + 4 < usize::MAX,
        argument_text_ok(all@, is_paren),
    ensures
        r@ == argument_text(all@, is_paren),
        r@.len() <= all@.len(),
{
    if !is_paren {
        let mut r: Vec<char> = Vec::new();
        crate::text::extend_from(&mut r, all, 0, all.len());
        assert(r@ =~= all@);
        return r;
    }
    let start = match find_exec(all, '(') {
        Some(k) => k + 1,
        None => 0,
    };
    let end = match find_exec(all, ')') {
        Some(k) => k,
        None => all.len(),
    };
    let mut r: Vec<char> = Vec::new();
    crate::text::extend_from(&mut r, all, start, end);
    assert(r@ =~= all@.subrange(start as int, end as int));
    r
}

pub(crate) fn last_index_exec(v: &Vec<char>, p: usize, x: char) -> (r: Option<usize>)
    requires
        p <= v@.len(),
    ensures
        match r {
            Some(k) => last_index(v@.subrange(0, p as int), x) == Some(k as int) && k < p,
            None => last_index(v@.subrange(0, p as int), x) is None,
        },
{
    let mut k = p;
    while k > 0 && v[k - 1] != x
        invariant
            k <= p <= v@.len(),
            last_index(v@.subrange(0, k as int), x) == last_index(v@.subrange(0, p as int), x),
        decreases k,
    {
        assert(v@.subrange(0, k as int).drop_last() =~= v@.subrange(0, k - 1));
        k -= 1;
    }
    if k == 0 {
        None
    } else {
        Some(k - 1)
    }
}

fn skip_name_end(v: &Vec<char>) -> (r: usize)
    ensures
        r == skip_while(v@, 0, name_end_char()),
        r <= v@.len(),
{
    let mut k: usize = 0;
    while k < v.len() && !unicode_whitespace(v[k]) && v[k] != '('
        invariant
            k <= v@.len(),
            forall|m: int| 0 <= m < k ==> (name_end_char())(#[trigger] v@[m]),
        decreases v.len() - k,
    {
        k += 1;
    }
    proof {
        lemma_skip_while_stop(v@, 0, k as int, name_end_char());
    }
    k
}

fn command_parts_exec(line: &str, cursor_col: usize) -> (r: Option<(String, bool, Vec<char>)>)
    requires
        line@.len() + 4 < usize::MAX,
    ensures
        match r {
            Some((name, paren, after_cmd)) => command_parts(line@, cursor_col as int) == Some(
                (name@, paren, after_cmd@),
            ) && after_cmd@.len() + 4 < usize::MAX && argument_text_ok(after_cmd@, paren),
            None => command_parts(line@, cursor_col as int) is None,
        },
{
    let v = chars_of(line);
    let n = v.len();
    let p = if cursor_col <= n {
        cursor_col
    } else {
        n
    };
    assert(p == prefix_len(line@.len() as int, cursor_col as int));
    if inside_string_chars(&v, 0, p) {
        return None;
    }
    let last_at = last_index_exec(&v, p, '@');
    let last_hash = last_index_exec(&v, p, '#');
    let t = match (last_at, last_hash) {
        (Some(a), Some(h)) => if a > h {
            a
        } else {
            h
        },
        (Some(a), None) => a,
        (None, Some(h)) => h,
        (None, None) => {
            return None;
        },
    };
    let ghost prefix = v@.subrange(0, p as int);
    let mut after: Vec<char> = Vec::new();
    crate::text::extend_from(&mut after, &v, t + 1, p);
    assert(after@ =~= prefix.subrange(t + 1, p as int));
    let cmd_end = skip_name_end(&after);
    if cmd_end == 0 {
        return None;
    }
    let mut after_cmd: Vec<char> = Vec::new();
    crate::text::extend_from(&mut after_cmd, &after, cmd_end, after.len());
    assert(after_cmd@ =~= after@.subrange(cmd_end as int, after@.len() as int));
    let lw = skip_ws(&after_cmd, 0);
    proof {
        crate::text::lemma_leading_ws(after_cmd@, lw as int);
    }
    let is_paren = lw < after_cmd.len() && after_cmd[lw] == '(';
    if is_paren && find_exec(&after_cmd, ')').is_some() {
        return None;
    }
    let name = string_of(after.as_slice(), 0, cmd_end);
    Some((name, is_paren, after_cmd))
}

/// The command or system call being typed at the cursor of an editor
/// (`cursor_col` counts characters): its name, whether its arguments are
/// in parentheses, and the names of the arguments written so far; `None`
/// inside a string, without an `@` or `#` before the cursor, with an
/// empty name, or after the closing parenthesis.
pub fn find_command_at_position(line: &str, cursor_col: usize) -> (r: Option<
    (String, bool, Vec<String>),
>)
    requires
        line@.len() + 4 < usize::MAX,
    ensures
        match r {
            Some((name, paren, args)) => command_at(line@, cursor_col as int) == Some(
                (name@, paren, strings_view(args@)),
            ),
            None => command_at(line@, cursor_col as int) is None,
        },
{
    match command_parts_exec(line, cursor_col) {
        Some((name, is_paren, after_cmd)) => {
            let text = crate::text::string_of_all(after_cmd.as_slice());
            let args = extract_argument_names(text.as_str(), is_paren);
            Some((name, is_paren, args))
        },
        None => None,
    }
}

} // verus!
