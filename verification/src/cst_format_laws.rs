//! What formatting keeps: every comment that stands as a node of a tree,
//! in a paragraph or a block or at the top level, and every default value
//! of a paragraph's parameter, shows in the formatted text.
use vstd::prelude::*;

use crate::cst::{CstBlockV, CstNodeV, CstParagraphV, CstParameterV, CstRootV, TriviaV};
use crate::cst_format::{
    fmt_attribute, fmt_block, fmt_call, fmt_comment_line, fmt_comment_lines, fmt_embedded,
    fmt_node, fmt_nodes, fmt_paragraph, fmt_params, fmt_root, fmt_text_line, fmt_trivia, indent,
    CstFormatter,
};
use crate::text::{ends_with, str_lines, trim};

verus! {

/// Whether `x` stands in `y` as a run of consecutive characters.
pub open spec fn occurs_in(x: Seq<char>, y: Seq<char>) -> bool {
    exists|a: int| 0 <= a && a + x.len() <= y.len() && #[trigger] y.subrange(a, a + x.len()) == x
}

/// The comments that stand as nodes of `n`, those of its paragraph or
/// block included, in order.
pub open spec fn node_comments(n: CstNodeV) -> Seq<TriviaV>
    decreases n,
{
    match n {
        CstNodeV::Trivia(t) => if t is Whitespace {
            Seq::empty()
        } else {
            seq![t]
        },
        CstNodeV::Paragraph(p) => nodes_comments(p.block.children),
        CstNodeV::Block(b) => nodes_comments(b.children),
        _ => Seq::empty(),
    }
}

/// The comments that stand as nodes of `nodes`, in order.
pub open spec fn nodes_comments(nodes: Seq<CstNodeV>) -> Seq<TriviaV>
    decreases nodes,
{
    if nodes.len() == 0 {
        Seq::empty()
    } else {
        node_comments(nodes[0]) + nodes_comments(nodes.drop_first())
    }
}

/// A line of a block comment of several lines, as it is printed after
/// the indentation: ` *`, then the line trimmed, after a space, where it
/// is not empty.
pub open spec fn comment_line_text(l: Seq<char>) -> Seq<char> {
    seq![' ', '*'] + (if l.len() == 0 {
        Seq::empty()
    } else {
        seq![' '] + trim(l)
    })
}

/// How a comment shows in formatted text: a line comment and a block
/// comment of one line whole, with their delimiters; a block comment of
/// several lines line by line.
pub open spec fn comment_pieces(t: TriviaV) -> Seq<Seq<char>> {
    match t {
        TriviaV::Whitespace { .. } => Seq::empty(),
        TriviaV::LineComment { content, .. } => seq![seq!['/', '/'] + content],
        TriviaV::BlockComment { content, .. } => {
            let lines = str_lines(content);
            if lines.len() <= 1 {
                seq![seq!['/', '*'] + content + seq!['*', '/']]
            } else {
                lines.map_values(|l: Seq<char>| comment_line_text(l))
            }
        },
    }
}

pub open spec fn is_prefix(a: Seq<char>, b: Seq<char>) -> bool {
    a.len() <= b.len() && b.subrange(0, a.len() as int) == a
}

proof fn lemma_append_prefix(a: Seq<char>, b: Seq<char>)
    ensures
        is_prefix(a, a + b),
{
    assert((a + b).subrange(0, a.len() as int) =~= a);
}

proof fn lemma_prefix_trans(a: Seq<char>, b: Seq<char>, c: Seq<char>)
    requires
        is_prefix(a, b),
        is_prefix(b, c),
    ensures
        is_prefix(a, c),
{
    assert(c.subrange(0, a.len() as int) =~= b.subrange(0, a.len() as int));
}

proof fn lemma_occurs_extend(x: Seq<char>, y: Seq<char>, z: Seq<char>)
    requires
        occurs_in(x, y),
        is_prefix(y, z),
    ensures
        occurs_in(x, z),
{
    let a = choose|a: int|
        0 <= a && a + x.len() <= y.len() && #[trigger] y.subrange(a, a + x.len()) == x;
    assert(z.subrange(a, a + x.len()) =~= y.subrange(a, a + x.len()));
}

proof fn lemma_occurs_after(x: Seq<char>, p: Seq<char>, y: Seq<char>)
    requires
        occurs_in(x, y),
    ensures
        occurs_in(x, p + y),
{
    let a = choose|a: int|
        0 <= a && a + x.len() <= y.len() && #[trigger] y.subrange(a, a + x.len()) == x;
    let b = a + p.len();
    assert((p + y).subrange(b, b + x.len()) =~= y.subrange(a, a + x.len()));
}

proof fn lemma_occurs_between(p: Seq<char>, x: Seq<char>, q: Seq<char>)
    ensures
        occurs_in(x, p + x + q),
{
    let y = p + x + q;
    let a = p.len() as int;
    assert(y.subrange(a, a + x.len()) =~= x);
}

// ---------------------------------------------------------------------
// What was printed stays printed
// ---------------------------------------------------------------------

proof fn lemma_node_prefix(ind: nat, n: CstNodeV, level: nat, out: Seq<char>)
    ensures
        is_prefix(out, fmt_node(ind, n, level, out)),
    decreases n,
{
    match n {
        CstNodeV::Trivia(t) => lemma_append_prefix(out, fmt_trivia(ind, level, t)),
        CstNodeV::Paragraph(p) => lemma_paragraph_prefix(ind, p, level, out),
        CstNodeV::Command(c) => lemma_append_prefix(out, fmt_call(ind, level, '@', c)),
        CstNodeV::SystemCall(c) => lemma_append_prefix(out, fmt_call(ind, level, '#', c)),
        CstNodeV::TextLine(x) => lemma_append_prefix(out, fmt_text_line(ind, level, x)),
        CstNodeV::Block(b) => lemma_block_prefix(ind, b, level, out),
        CstNodeV::EmbeddedCode(e) => lemma_append_prefix(out, fmt_embedded(ind, level, e)),
        CstNodeV::Attribute(a) => lemma_append_prefix(out, fmt_attribute(ind, level, a)),
        CstNodeV::Error { content, .. } => {
            lemma_append_prefix(out, content + seq!['\n']);
            assert(out + content + seq!['\n'] =~= out + (content + seq!['\n']));
        },
    }
}

proof fn lemma_nodes_prefix(ind: nat, nodes: Seq<CstNodeV>, level: nat, out: Seq<char>)
    ensures
        is_prefix(out, fmt_nodes(ind, nodes, level, out)),
    decreases nodes,
{
    if nodes.len() == 0 {
        assert(out.subrange(0, out.len() as int) =~= out);
    } else {
        let o1 = fmt_node(ind, nodes[0], level, out);
        lemma_node_prefix(ind, nodes[0], level, out);
        lemma_nodes_prefix(ind, nodes.drop_first(), level, o1);
        lemma_prefix_trans(out, o1, fmt_nodes(ind, nodes, level, out));
    }
}

proof fn lemma_block_prefix(ind: nat, b: CstBlockV, level: nat, out: Seq<char>)
    ensures
        is_prefix(out, fmt_block(ind, b, level, out)),
    decreases b,
{
    let head = (if level > 0 {
        indent(ind, level)
    } else {
        Seq::empty()
    }) + seq!['{', '\n'];
    let o1 = out + head;
    assert(o1 =~= out + (if level > 0 {
        indent(ind, level)
    } else {
        Seq::empty()
    }) + seq!['{', '\n']);
    let o2 = fmt_nodes(ind, b.children, level + 1, o1);
    let tail = indent(ind, level) + seq!['}', '\n'];
    assert(fmt_block(ind, b, level, out) =~= o2 + tail);
    lemma_append_prefix(out, head);
    lemma_nodes_prefix(ind, b.children, level + 1, o1);
    lemma_append_prefix(o2, tail);
    lemma_prefix_trans(out, o1, o2);
    lemma_prefix_trans(out, o2, o2 + tail);
}

proof fn lemma_paragraph_prefix(ind: nat, p: CstParagraphV, level: nat, out: Seq<char>)
    ensures
        is_prefix(out, fmt_paragraph(ind, p, level, out)),
    decreases p,
{
    let o1 = if out.len() > 0 && !ends_with(out, seq!['\n', '\n']) {
        out.push('\n')
    } else {
        out
    };
    let head = seq![':', ':'] + p.name + (if p.parameters.len() == 0 {
        Seq::empty()
    } else {
        seq!['('] + fmt_params(p.parameters) + seq![')']
    }) + seq![' '];
    let o2 = o1 + head;
    assert(o2 =~= o1 + seq![':', ':'] + p.name + (if p.parameters.len() == 0 {
        Seq::empty()
    } else {
        seq!['('] + fmt_params(p.parameters) + seq![')']
    }) + seq![' ']);
    if o1 == out {
        assert(out.subrange(0, out.len() as int) =~= out);
    } else {
        lemma_append_prefix(out, seq!['\n']);
        assert(out.push('\n') =~= out + seq!['\n']);
    }
    lemma_append_prefix(o1, head);
    lemma_block_prefix(ind, p.block, level, o2);
    lemma_prefix_trans(out, o1, o2);
    lemma_prefix_trans(out, o2, fmt_paragraph(ind, p, level, out));
}

// ---------------------------------------------------------------------
// Each comment shows
// ---------------------------------------------------------------------

proof fn lemma_comment_lines_keep(ind: nat, level: nat, lines: Seq<Seq<char>>, k: int)
    requires
        0 <= k < lines.len(),
    ensures
        occurs_in(comment_line_text(lines[k]), fmt_comment_lines(ind, level, lines)),
    decreases lines.len(),
{
    let rest = fmt_comment_lines(ind, level, lines.drop_last());
    let last = fmt_comment_line(ind, level, lines.last());
    assert(fmt_comment_lines(ind, level, lines) == rest + last);
    if k == lines.len() - 1 {
        let x = comment_line_text(lines[k]);
        assert(last =~= indent(ind, level) + x + seq!['\n']);
        lemma_occurs_between(indent(ind, level), x, seq!['\n']);
        lemma_occurs_after(x, rest, last);
    } else {
        lemma_comment_lines_keep(ind, level, lines.drop_last(), k);
        assert(lines.drop_last()[k] == lines[k]);
        lemma_append_prefix(rest, last);
        lemma_occurs_extend(comment_line_text(lines[k]), rest, rest + last);
    }
}

proof fn lemma_trivia_keep(ind: nat, level: nat, t: TriviaV, piece: Seq<char>)
    requires
        comment_pieces(t).contains(piece),
    ensures
        occurs_in(piece, fmt_trivia(ind, level, t)),
{
    let pre = indent(ind, level);
    match t {
        TriviaV::Whitespace { .. } => {},
        TriviaV::LineComment { content, .. } => {
            assert(comment_pieces(t)[0] == piece);
            assert(fmt_trivia(ind, level, t) =~= pre + piece + seq!['\n']);
            lemma_occurs_between(pre, piece, seq!['\n']);
        },
        TriviaV::BlockComment { content, .. } => {
            let lines = str_lines(content);
            if lines.len() <= 1 {
                assert(comment_pieces(t)[0] == piece);
                assert(fmt_trivia(ind, level, t) =~= pre + piece + seq!['\n']);
                lemma_occurs_between(pre, piece, seq!['\n']);
            } else {
                let k = choose|k: int| 0 <= k < comment_pieces(t).len() && comment_pieces(t)[k] == piece;
                assert(piece == comment_line_text(lines[k]));
                let open = pre + seq!['/', '*', '\n'];
                let body = fmt_comment_lines(ind, level, lines);
                let close = pre + seq![' ', '*', '/', '\n'];
                assert(fmt_trivia(ind, level, t) =~= open + body + close);
                lemma_comment_lines_keep(ind, level, lines, k);
                lemma_occurs_after(piece, open, body);
                lemma_append_prefix(open + body, close);
                lemma_occurs_extend(piece, open + body, open + body + close);
            }
        },
    }
}

proof fn lemma_node_keep(ind: nat, n: CstNodeV, level: nat, out: Seq<char>, t: TriviaV, piece: Seq<char>)
    requires
        node_comments(n).contains(t),
        comment_pieces(t).contains(piece),
    ensures
        occurs_in(piece, fmt_node(ind, n, level, out)),
    decreases n,
{
    match n {
        CstNodeV::Trivia(t0) => {
            assert(node_comments(n)[0] == t);
            lemma_trivia_keep(ind, level, t, piece);
            lemma_occurs_after(piece, out, fmt_trivia(ind, level, t));
        },
        CstNodeV::Paragraph(p) => {
            lemma_paragraph_keep(ind, p, level, out, t, piece);
        },
        CstNodeV::Block(b) => {
            lemma_block_keep(ind, b, level, out, t, piece);
        },
        _ => {},
    }
}

proof fn lemma_nodes_keep(
    ind: nat,
    nodes: Seq<CstNodeV>,
    level: nat,
    out: Seq<char>,
    t: TriviaV,
    piece: Seq<char>,
)
    requires
        nodes_comments(nodes).contains(t),
        comment_pieces(t).contains(piece),
    ensures
        occurs_in(piece, fmt_nodes(ind, nodes, level, out)),
    decreases nodes,
{
    let first = node_comments(nodes[0]);
    let others = nodes_comments(nodes.drop_first());
    let o1 = fmt_node(ind, nodes[0], level, out);
    let k = choose|k: int| 0 <= k < (first + others).len() && (first + others)[k] == t;
    if k < first.len() {
        assert(first[k] == t);
        lemma_node_keep(ind, nodes[0], level, out, t, piece);
        lemma_nodes_prefix(ind, nodes.drop_first(), level, o1);
        lemma_occurs_extend(piece, o1, fmt_nodes(ind, nodes, level, out));
    } else {
        assert(others[k - first.len()] == t);
        lemma_nodes_keep(ind, nodes.drop_first(), level, o1, t, piece);
    }
}

proof fn lemma_block_keep(ind: nat, b: CstBlockV, level: nat, out: Seq<char>, t: TriviaV, piece: Seq<char>)
    requires
        nodes_comments(b.children).contains(t),
        comment_pieces(t).contains(piece),
    ensures
        occurs_in(piece, fmt_block(ind, b, level, out)),
    decreases b,
{
    let o1 = out + (if level > 0 {
        indent(ind, level)
    } else {
        Seq::empty()
    }) + seq!['{', '\n'];
    let o2 = fmt_nodes(ind, b.children, level + 1, o1);
    let tail = indent(ind, level) + seq!['}', '\n'];
    assert(fmt_block(ind, b, level, out) =~= o2 + tail);
    lemma_nodes_keep(ind, b.children, level + 1, o1, t, piece);
    lemma_append_prefix(o2, tail);
    lemma_occurs_extend(piece, o2, o2 + tail);
}

proof fn lemma_paragraph_keep(
    ind: nat,
    p: CstParagraphV,
    level: nat,
    out: Seq<char>,
    t: TriviaV,
    piece: Seq<char>,
)
    requires
        nodes_comments(p.block.children).contains(t),
        comment_pieces(t).contains(piece),
    ensures
        occurs_in(piece, fmt_paragraph(ind, p, level, out)),
    decreases p,
{
    let o1 = if out.len() > 0 && !ends_with(out, seq!['\n', '\n']) {
        out.push('\n')
    } else {
        out
    };
    let o2 = o1 + seq![':', ':'] + p.name + (if p.parameters.len() == 0 {
        Seq::empty()
    } else {
        seq!['('] + fmt_params(p.parameters) + seq![')']
    }) + seq![' '];
    lemma_block_keep(ind, p.block, level, o2, t, piece);
}

/// Formatting keeps every comment: where a comment stands as a node of
/// the tree (at the top level, or anywhere in a paragraph or a block),
/// each piece by which it shows (the whole comment with its delimiters,
/// or each of the lines of a block comment of several lines, trimmed)
/// stands in the formatted text.
pub proof fn law_format_keeps_comments(f: CstFormatter, root: CstRootV, t: TriviaV, piece: Seq<char>)
    requires
        nodes_comments(root.nodes).contains(t),
        comment_pieces(t).contains(piece),
    ensures
        occurs_in(piece, fmt_root(f.indent_width(), root)),
{
    let ind = f.indent_width();
    let o = fmt_nodes(ind, root.nodes, 0, Seq::empty());
    lemma_nodes_keep(ind, root.nodes, 0, Seq::empty(), t, piece);
    if !ends_with(o, seq!['\n']) {
        lemma_append_prefix(o, seq!['\n']);
        assert(o.push('\n') =~= o + seq!['\n']);
        lemma_occurs_extend(piece, o, o.push('\n'));
    }
}

// ---------------------------------------------------------------------
// Each parameter default shows
// ---------------------------------------------------------------------

/// How a parameter with a default value shows: its name, `=`, and the
/// default's source text.
pub open spec fn parameter_with_default(p: CstParameterV) -> Seq<char> {
    p.name + seq!['='] + p.default_value->0.raw
}

proof fn lemma_params_keep(ps: Seq<CstParameterV>, j: int)
    requires
        0 <= j < ps.len(),
        ps[j].default_value is Some,
    ensures
        occurs_in(parameter_with_default(ps[j]), fmt_params(ps)),
    decreases ps.len(),
{
    let x = parameter_with_default(ps[j]);
    if ps.len() == 1 {
        assert(fmt_params(ps) == crate::cst_format::fmt_parameter(ps[0]));
        assert(fmt_params(ps) =~= Seq::<char>::empty() + x + Seq::<char>::empty());
        lemma_occurs_between(Seq::empty(), x, Seq::empty());
    } else {
        let d = ps.drop_last();
        let pre = fmt_params(d) + seq![',', ' '];
        let last = crate::cst_format::fmt_parameter(ps.last());
        assert(fmt_params(ps) == pre + last);
        if j == ps.len() - 1 {
            assert(last =~= Seq::<char>::empty() + x + Seq::<char>::empty());
            lemma_occurs_between(Seq::empty(), x, Seq::empty());
            lemma_occurs_after(x, pre, last);
        } else {
            assert(d[j] == ps[j]);
            lemma_params_keep(d, j);
            lemma_append_prefix(fmt_params(d), seq![',', ' ']);
            lemma_occurs_extend(x, fmt_params(d), pre);
            lemma_append_prefix(pre, last);
            lemma_occurs_extend(x, pre, pre + last);
        }
    }
}

proof fn lemma_paragraph_shows_default(ind: nat, p: CstParagraphV, level: nat, out: Seq<char>, j: int)
    requires
        0 <= j < p.parameters.len(),
        p.parameters[j].default_value is Some,
    ensures
        occurs_in(parameter_with_default(p.parameters[j]), fmt_paragraph(ind, p, level, out)),
{
    let x = parameter_with_default(p.parameters[j]);
    let o1 = if out.len() > 0 && !ends_with(out, seq!['\n', '\n']) {
        out.push('\n')
    } else {
        out
    };
    let pre = o1 + seq![':', ':'] + p.name;
    let params = fmt_params(p.parameters);
    let paren = seq!['('] + params + seq![')'];
    let o2 = pre + paren + seq![' '];
    assert(o2 =~= o1 + seq![':', ':'] + p.name + (if p.parameters.len() == 0 {
        Seq::empty()
    } else {
        seq!['('] + fmt_params(p.parameters) + seq![')']
    }) + seq![' ']);
    lemma_params_keep(p.parameters, j);
    lemma_occurs_after(x, seq!['('], params);
    lemma_append_prefix(seq!['('] + params, seq![')']);
    lemma_occurs_extend(x, seq!['('] + params, paren);
    lemma_occurs_after(x, pre, paren);
    lemma_append_prefix(pre + paren, seq![' ']);
    lemma_occurs_extend(x, pre + paren, o2);
    lemma_block_prefix(ind, p.block, level, o2);
    lemma_occurs_extend(x, o2, fmt_paragraph(ind, p, level, out));
}

proof fn lemma_nodes_show_default(ind: nat, nodes: Seq<CstNodeV>, level: nat, out: Seq<char>, k: int, j: int)
    requires
        0 <= k < nodes.len(),
        nodes[k] matches CstNodeV::Paragraph(p) && 0 <= j < p.parameters.len() && p.parameters[j].default_value is Some,
    ensures
        occurs_in(parameter_with_default(nodes[k]->Paragraph_0.parameters[j]), fmt_nodes(ind, nodes, level, out)),
    decreases k,
{
    let x = parameter_with_default(nodes[k]->Paragraph_0.parameters[j]);
    let o1 = fmt_node(ind, nodes[0], level, out);
    if k == 0 {
        lemma_paragraph_shows_default(ind, nodes[0]->Paragraph_0, level, out, j);
        lemma_nodes_prefix(ind, nodes.drop_first(), level, o1);
        lemma_occurs_extend(x, o1, fmt_nodes(ind, nodes, level, out));
    } else {
        assert(nodes.drop_first()[k - 1] == nodes[k]);
        lemma_nodes_show_default(ind, nodes.drop_first(), level, o1, k - 1, j);
    }
}

/// Formatting keeps the default value of every parameter of a paragraph:
/// for a parameter with a default, its name, `=` and the default's source
/// text stand together in the formatted text.
pub proof fn law_format_keeps_parameter_defaults(f: CstFormatter, root: CstRootV, k: int, j: int)
    requires
        0 <= k < root.nodes.len(),
        root.nodes[k] matches CstNodeV::Paragraph(p) && 0 <= j < p.parameters.len()
            && p.parameters[j].default_value is Some,
    ensures
        occurs_in(parameter_with_default(root.nodes[k]->Paragraph_0.parameters[j]), fmt_root(f.indent_width(), root)),
{
    let ind = f.indent_width();
    let x = parameter_with_default(root.nodes[k]->Paragraph_0.parameters[j]);
    let o = fmt_nodes(ind, root.nodes, 0, Seq::empty());
    lemma_nodes_show_default(ind, root.nodes, 0, Seq::empty(), k, j);
    if !ends_with(o, seq!['\n']) {
        lemma_append_prefix(o, seq!['\n']);
        assert(o.push('\n') =~= o + seq!['\n']);
        lemma_occurs_extend(x, o, o.push('\n'));
    }
}

} // verus!
