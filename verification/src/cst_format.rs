//! The formatter: prints a concrete syntax tree with consistent
//! spacing, indentation and line breaks, keeping every comment.
use vstd::prelude::*;

use crate::cst::{
    cst_node_view, CommandSyntax, CstArgument, CstArgumentV, CstAttribute, CstAttributeV, CstBlock,
    CstBlockV, CstCallV, CstCommand, CstEmbeddedCode, CstEmbeddedCodeV, CstLeadingText,
    CstLeadingTextContent, CstLeadingContentV, CstLeadingTextV, CstNode, CstNodeV, CstParagraph,
    CstParagraphV, CstParameter, CstParameterV, CstRoot, CstRootV, CstSystemCall,
    CstTemplateLiteral, CstTemplatePart, CstTemplatePartV, CstTextLine, CstTextLineV, CstTrivia,
    EmbeddedCodeSyntax, TriviaV,
};
use crate::text::{
    chars_of, count_char, count_char_exec, ends_with, extend_chars, extend_from,
    lemma_split_lf_len, skip_ws_backward, skip_ws_forward, split_lf, split_lf_exec, str_lines,
    string_of_all, strip_cr, trim, trim_newlines, trim_newlines_bounds,
};

verus! {

broadcast use vstd::std_specs::vec::axiom_vec_index_decreases;

// ---------------------------------------------------------------------
// What the formatter prints
// ---------------------------------------------------------------------

pub open spec fn spaces(n: nat) -> Seq<char> {
    Seq::new(n, |i: int| ' ')
}

pub open spec fn indent(ind: nat, level: nat) -> Seq<char> {
    spaces(level * ind)
}

pub open spec fn fmt_argument(a: CstArgumentV) -> Seq<char> {
    a.name + match a.value {
        Some(v) => seq!['='] + v.raw,
        None => Seq::empty(),
    }
}

/// Arguments separated by `", "`.
pub open spec fn fmt_args_comma(args: Seq<CstArgumentV>) -> Seq<char>
    decreases args.len(),
{
    if args.len() == 0 {
        Seq::empty()
    } else if args.len() == 1 {
        fmt_argument(args[0])
    } else {
        fmt_args_comma(args.drop_last()) + seq![',', ' '] + fmt_argument(args.last())
    }
}

/// Arguments each preceded by a space.
pub open spec fn fmt_args_space(args: Seq<CstArgumentV>) -> Seq<char>
    decreases args.len(),
{
    if args.len() == 0 {
        Seq::empty()
    } else {
        fmt_args_space(args.drop_last()) + seq![' '] + fmt_argument(args.last())
    }
}

pub open spec fn fmt_call(ind: nat, level: nat, sigil: char, c: CstCallV) -> Seq<char> {
    indent(ind, level) + seq![sigil] + c.command + (if c.arguments.len() == 0 {
        Seq::empty()
    } else {
        match c.syntax {
            CommandSyntax::Parenthesized { .. } => seq!['('] + fmt_args_comma(c.arguments) + seq![
                ')',
            ],
            CommandSyntax::SpaceSeparated => fmt_args_space(c.arguments),
        }
    }) + seq!['\n']
}

pub open spec fn fmt_parameter(p: CstParameterV) -> Seq<char> {
    p.name + match p.default_value {
        Some(v) => seq!['='] + v.raw,
        None => Seq::empty(),
    }
}

pub open spec fn fmt_params(ps: Seq<CstParameterV>) -> Seq<char>
    decreases ps.len(),
{
    if ps.len() == 0 {
        Seq::empty()
    } else if ps.len() == 1 {
        fmt_parameter(ps[0])
    } else {
        fmt_params(ps.drop_last()) + seq![',', ' '] + fmt_parameter(ps.last())
    }
}

/// Segments joined by dots.
pub open spec fn join_dots(chain: Seq<Seq<char>>) -> Seq<char>
    decreases chain.len(),
{
    if chain.len() == 0 {
        Seq::empty()
    } else if chain.len() == 1 {
        chain[0]
    } else {
        join_dots(chain.drop_last()) + seq!['.'] + chain.last()
    }
}

pub open spec fn fmt_template_part(p: CstTemplatePartV) -> Seq<char> {
    match p {
        CstTemplatePartV::Text { content, .. } => content,
        CstTemplatePartV::Value { variable, .. } => seq!['$', '{'] + join_dots(variable) + seq![
            '}',
        ],
    }
}

pub open spec fn fmt_template(parts: Seq<CstTemplatePartV>) -> Seq<char>
    decreases parts.len(),
{
    if parts.len() == 0 {
        Seq::empty()
    } else {
        fmt_template(parts.drop_last()) + fmt_template_part(parts.last())
    }
}

pub open spec fn fmt_leading(l: CstLeadingTextV) -> Seq<char> {
    seq!['['] + match l.content {
        CstLeadingContentV::Text(s) => s,
        CstLeadingContentV::Template(t) => seq!['`'] + fmt_template(t.parts) + seq!['`'],
    } + seq![']']
}

pub open spec fn fmt_text_line(ind: nat, level: nat, t: CstTextLineV) -> Seq<char> {
    indent(ind, level) + match t.leading {
        Some(l) => fmt_leading(l) + seq![' '],
        None => Seq::empty(),
    } + match t.text {
        Some(x) => x.raw,
        None => Seq::empty(),
    } + match t.tailing {
        Some(g) => seq![' ', '#'] + g.marker,
        None => Seq::empty(),
    } + seq!['\n']
}

/// One line of a multi-line block comment.
pub open spec fn fmt_comment_line(ind: nat, level: nat, line: Seq<char>) -> Seq<char> {
    indent(ind, level) + seq![' ', '*'] + (if line.len() == 0 {
        Seq::empty()
    } else {
        seq![' '] + trim(line)
    }) + seq!['\n']
}

pub open spec fn fmt_comment_lines(ind: nat, level: nat, lines: Seq<Seq<char>>) -> Seq<char>
    decreases lines.len(),
{
    if lines.len() == 0 {
        Seq::empty()
    } else {
        fmt_comment_lines(ind, level, lines.drop_last()) + fmt_comment_line(
            ind,
            level,
            lines.last(),
        )
    }
}

/// Whitespace prints one empty line where the source had a blank line.
pub open spec fn fmt_trivia(ind: nat, level: nat, t: TriviaV) -> Seq<char> {
    match t {
        TriviaV::Whitespace { content, .. } => if count_char(content, '\n') >= 2 {
            seq!['\n']
        } else {
            Seq::empty()
        },
        TriviaV::LineComment { content, .. } => indent(ind, level) + seq!['/', '/'] + content
            + seq!['\n'],
        TriviaV::BlockComment { content, .. } => {
            let lines = str_lines(content);
            if lines.len() <= 1 {
                indent(ind, level) + seq!['/', '*'] + content + seq!['*', '/', '\n']
            } else {
                indent(ind, level) + seq!['/', '*', '\n'] + fmt_comment_lines(ind, level, lines)
                    + indent(ind, level) + seq![' ', '*', '/', '\n']
            }
        },
    }
}

pub open spec fn fmt_embedded(ind: nat, level: nat, e: CstEmbeddedCodeV) -> Seq<char> {
    let t = trim(e.code);
    match e.syntax {
        EmbeddedCodeSyntax::Brace => if t.contains('\n') {
            indent(ind, level) + seq!['@', '{', '\n'] + trim_newlines(e.code) + seq!['\n'] + indent(
                ind,
                level,
            ) + seq!['}', '\n']
        } else {
            indent(ind, level) + seq!['@', '{', ' '] + t + seq![' ', '}', '\n']
        },
        EmbeddedCodeSyntax::Hash => if t.contains('\n') {
            indent(ind, level) + seq!['#', '#', '\n'] + e.code + (if ends_with(e.code, seq!['\n']) {
                Seq::empty()
            } else {
                seq!['\n']
            }) + indent(ind, level) + seq!['#', '#', '\n']
        } else {
            indent(ind, level) + seq!['#', '#', ' '] + t + seq![' ', '#', '#', '\n']
        },
    }
}

/// An attribute on a line of its own, its condition in double quotes.
pub open spec fn fmt_attribute(ind: nat, level: nat, a: CstAttributeV) -> Seq<char> {
    indent(ind, level) + seq!['#', '['] + a.keyword + match a.condition {
        Some(c) => seq!['(', '"'] + c + seq!['"', ')'],
        None => Seq::empty(),
    } + seq![']', '\n']
}

pub open spec fn fmt_node(ind: nat, n: CstNodeV, level: nat, out: Seq<char>) -> Seq<char>
    decreases n,
{
    match n {
        CstNodeV::Trivia(t) => out + fmt_trivia(ind, level, t),
        CstNodeV::Paragraph(p) => fmt_paragraph(ind, p, level, out),
        CstNodeV::Command(c) => out + fmt_call(ind, level, '@', c),
        CstNodeV::SystemCall(c) => out + fmt_call(ind, level, '#', c),
        CstNodeV::TextLine(t) => out + fmt_text_line(ind, level, t),
        CstNodeV::Block(b) => fmt_block(ind, b, level, out),
        CstNodeV::EmbeddedCode(e) => out + fmt_embedded(ind, level, e),
        CstNodeV::Attribute(a) => out + fmt_attribute(ind, level, a),
        CstNodeV::Error { content, .. } => out + content + seq!['\n'],
    }
}

pub open spec fn fmt_nodes(ind: nat, nodes: Seq<CstNodeV>, level: nat, out: Seq<char>) -> Seq<
    char,
>
    decreases nodes,
{
    if nodes.len() == 0 {
        out
    } else {
        fmt_nodes(ind, nodes.drop_first(), level, fmt_node(ind, nodes[0], level, out))
    }
}

/// A block: the opening brace is indented except at level 0.
pub open spec fn fmt_block(ind: nat, b: CstBlockV, level: nat, out: Seq<char>) -> Seq<char>
    decreases b,
{
    let o1 = out + (if level > 0 {
        indent(ind, level)
    } else {
        Seq::empty()
    }) + seq!['{', '\n'];
    fmt_nodes(ind, b.children, level + 1, o1) + indent(ind, level) + seq!['}', '\n']
}

/// A paragraph, separated by an empty line from what came before.
pub open spec fn fmt_paragraph(ind: nat, p: CstParagraphV, level: nat, out: Seq<char>) -> Seq<
    char,
>
    decreases p,
{
    let o1 = if out.len() > 0 && !ends_with(out, seq!['\n', '\n']) {
        out.push('\n')
    } else {
        out
    };
    let o2 = o1 + seq![':', ':'] + p.name + (if p.parameters.len() == 0 {
        Seq::empty()
    } else {
        seq!['('] + fmt_params(p.parameters) + seq![')']
    }) + seq![' '];
    fmt_block(ind, p.block, level, o2)
}

/// The formatted file: always ends with a line feed.
pub open spec fn fmt_root(ind: nat, r: CstRootV) -> Seq<char> {
    let o = fmt_nodes(ind, r.nodes, 0, Seq::empty());
    if ends_with(o, seq!['\n']) {
        o
    } else {
        o.push('\n')
    }
}

/// How deeply blocks nest in a node.
pub open spec fn node_depth(n: CstNodeV) -> nat
    decreases n,
{
    match n {
        CstNodeV::Paragraph(p) => 1 + nodes_depth(p.block.children),
        CstNodeV::Block(b) => 1 + nodes_depth(b.children),
        _ => 0,
    }
}

pub open spec fn nodes_depth(nodes: Seq<CstNodeV>) -> nat
    decreases nodes,
{
    if nodes.len() == 0 {
        0
    } else {
        let a = node_depth(nodes[0]);
        let b = nodes_depth(nodes.drop_first());
        if a >= b {
            a
        } else {
            b
        }
    }
}

proof fn lemma_nodes_depth_index(nodes: Seq<CstNodeV>, i: int)
    requires
        0 <= i < nodes.len(),
    ensures
        node_depth(nodes[i]) <= nodes_depth(nodes),
    decreases i,
{
    if i > 0 {
        lemma_nodes_depth_index(nodes.drop_first(), i - 1);
        assert(nodes.drop_first()[i - 1] == nodes[i]);
    }
}

/// The indentation of every line of the output fits the machine.
pub open spec fn indent_fits(ind: nat, level: nat, depth: nat) -> bool {
    (level + depth) * ind <= usize::MAX && level + depth <= usize::MAX
}

// ---------------------------------------------------------------------
// The formatter
// ---------------------------------------------------------------------

/// Prints a concrete syntax tree.
pub struct CstFormatter {
    indent_size: usize,
}

impl Default for CstFormatter {
    fn default() -> (r: Self)
        ensures
            r.indent_width() == 4,
    {
        CstFormatter { indent_size: 4 }
    }
}

proof fn lemma_indent_mono(ind: nat, a: nat, b: nat)
    requires
        a <= b,
    ensures
        a * ind <= b * ind,
{
    assert(a * ind <= b * ind) by (nonlinear_arith)
        requires
            a <= b,
    ;
}

impl CstFormatter {
    /// The number of spaces of one level of indentation.
    pub closed spec fn indent_width(&self) -> nat {
        self.indent_size as nat
    }

    /// A formatter that indents by four spaces.
    pub fn new() -> (r: Self)
        ensures
            r.indent_width() == 4,
    {
        CstFormatter { indent_size: 4 }
    }

    /// A formatter that indents by `indent_size` spaces.
    pub fn with_indent(indent_size: usize) -> (r: Self)
        ensures
            r.indent_width() == indent_size,
    {
        CstFormatter { indent_size }
    }

    /// Formats a whole file.
    pub fn format(&self, root: &CstRoot) -> (r: String)
        requires
            indent_fits(self.indent_width(), 0, nodes_depth(root@.nodes)),
        ensures
            r@ == fmt_root(self.indent_width(), root@),
    {
        let mut out: Vec<char> = Vec::new();
        self.format_nodes(&root.nodes, 0, &mut out);
        let ghost o = out@;
        assert(o == fmt_nodes(self.indent_width(), root@.nodes, 0, Seq::empty()));
        let n = out.len();
        proof {
            if n > 0 {
                assert(o.skip(n - 1)[0] == o[n - 1]);
                assert(o[n - 1] == '\n' ==> o.skip(n - 1) =~= seq!['\n']);
            }
        }
        if n == 0 || out[n - 1] != '\n' {
            out.push('\n');
        }
        string_of_all(out.as_slice())
    }

    fn indent(&self, level: usize, out: &mut Vec<char>)
        requires
            level * self.indent_size <= usize::MAX,
        ensures
            final(out)@ == old(out)@ + indent(self.indent_width(), level as nat),
    {
        let n = level * self.indent_size;
        let ghost start = out@;
        let mut i: usize = 0;
        while i < n
            invariant
                0 <= i <= n,
                out@ == start + spaces(i as nat),
            decreases n - i,
        {
            out.push(' ');
            i += 1;
            assert(out@ =~= start + spaces(i as nat));
        }
    }

    fn format_nodes(&self, nodes: &Vec<CstNode>, level: usize, out: &mut Vec<char>)
        requires
            indent_fits(self.indent_width(), level as nat, nodes_depth(crate::cst::cst_nodes_view(*nodes))),
        ensures
            final(out)@ == fmt_nodes(self.indent_width(), crate::cst::cst_nodes_view(*nodes), level as nat, old(out)@),
        decreases nodes, 0nat,
    {
        let ghost all = crate::cst::cst_nodes_view(*nodes);
        let ghost start = out@;
        let mut i: usize = 0;
        assert(all.skip(0) =~= all);
        while i < nodes.len()
            invariant
                0 <= i <= nodes.len(),
                all == crate::cst::cst_nodes_view(*nodes),
                all.len() == nodes.len(),
                indent_fits(self.indent_width(), level as nat, nodes_depth(all)),
                fmt_nodes(self.indent_width(), all.skip(i as int), level as nat, out@) == fmt_nodes(
                    self.indent_width(),
                    all,
                    level as nat,
                    start,
                ),
            decreases nodes.len() - i,
        {
            let ghost cur = all.skip(i as int);
            assert(cur.drop_first() =~= all.skip(i + 1));
            assert(cur[0] == cst_node_view(nodes@[i as int]));
            proof {
                lemma_nodes_depth_index(all, i as int);
                lemma_indent_mono(self.indent_width(), (level + node_depth(all[i as int])) as nat, (level + nodes_depth(all)) as nat);
            }
            assert(decreases_to!(*nodes => nodes[i as int]));
            self.format_node(&nodes[i], level, out);
            i += 1;
        }
        assert(all.skip(i as int) =~= Seq::<CstNodeV>::empty());
    }

    fn format_node(&self, node: &CstNode, level: usize, out: &mut Vec<char>)
        requires
            indent_fits(self.indent_width(), level as nat, node_depth(node@)),
        ensures
            final(out)@ == fmt_node(self.indent_width(), node@, level as nat, old(out)@),
        decreases node, 1nat,
    {
        proof {
            lemma_indent_mono(self.indent_width(), level as nat, (level + node_depth(node@)) as nat);
        }
        match node {
            CstNode::Trivia(t) => self.format_trivia(t, level, out),
            CstNode::Paragraph(p) => {
                assert(decreases_to!(*node => (*node)->Paragraph_0));
                self.format_paragraph(p, level, out)
            },
            CstNode::Command(c) => self.format_command(c, level, out),
            CstNode::SystemCall(c) => self.format_systemcall(c, level, out),
            CstNode::TextLine(t) => self.format_text_line(t, level, out),
            CstNode::Block(b) => {
                assert(decreases_to!(*node => (*node)->Block_0));
                self.format_block(b, level, out)
            },
            CstNode::EmbeddedCode(e) => self.format_embedded_code(e, level, out),
            CstNode::Attribute(a) => self.format_attribute(a, level, out),
            CstNode::Error { content, .. } => {
                extend_chars(out, content.as_str());
                out.push('\n');
            },
        }
    }

    fn format_block(&self, block: &CstBlock, level: usize, out: &mut Vec<char>)
        requires
            indent_fits(self.indent_width(), level as nat, 1 + nodes_depth(block@.children)),
        ensures
            final(out)@ == fmt_block(self.indent_width(), block@, level as nat, old(out)@),
        decreases block, 0nat,
    {
        let ghost start = out@;
        proof {
            lemma_indent_mono(self.indent_width(), level as nat, (level + 1 + nodes_depth(block@.children)) as nat);
        }
        if level > 0 {
            self.indent(level, out);
        }
        out.push('{');
        out.push('\n');
        assert(out@ =~= start + (if level > 0 {
            indent(self.indent_width(), level as nat)
        } else {
            Seq::empty()
        }) + seq!['{', '\n']);
        assert(decreases_to!(*block => block.children));
        self.format_nodes(&block.children, level + 1, out);
        let ghost mid = out@;
        self.indent(level, out);
        out.push('}');
        out.push('\n');
        assert(out@ =~= mid + indent(self.indent_width(), level as nat) + seq!['}', '\n']);
    }

    fn format_paragraph(&self, para: &CstParagraph, level: usize, out: &mut Vec<char>)
        requires
            indent_fits(self.indent_width(), level as nat, 1 + nodes_depth(para@.block.children)),
        ensures
            final(out)@ == fmt_paragraph(self.indent_width(), para@, level as nat, old(out)@),
        decreases para, 0nat,
    {
        let ghost start = out@;
        let n = out.len();
        if n > 0 && !(n >= 2 && out[n - 1] == '\n' && out[n - 2] == '\n') {
            out.push('\n');
        }
        proof {
            if n >= 2 {
                assert(start.skip(n - 2) =~= seq![start[n - 2], start[n - 1]]);
            }
        }
        let ghost o1 = out@;
        out.push(':');
        out.push(':');
        extend_chars(out, para.name.as_str());
        if para.parameters.len() > 0 {
            out.push('(');
            let ghost before = out@;
            let mut i: usize = 0;
            while i < para.parameters.len()
                invariant
                    0 <= i <= para.parameters.len(),
                    out@ == before + fmt_params(para@.parameters.take(i as int)),
                decreases para.parameters.len() - i,
            {
                assert(para@.parameters.take(i + 1).drop_last() =~= para@.parameters.take(i as int));
                if i > 0 {
                    out.push(',');
                    out.push(' ');
                }
                self.format_parameter(&para.parameters[i], out);
                i += 1;
                assert(out@ =~= before + fmt_params(para@.parameters.take(i as int)));
            }
            assert(para@.parameters.take(i as int) =~= para@.parameters);
            out.push(')');
        }
        out.push(' ');
        assert(out@ =~= o1 + seq![':', ':'] + para@.name + (if para@.parameters.len() == 0 {
            Seq::empty()
        } else {
            seq!['('] + fmt_params(para@.parameters) + seq![')']
        }) + seq![' ']);
        assert(decreases_to!(*para => para.block));
        self.format_block(&para.block, level, out);
    }

    fn format_parameter(&self, param: &CstParameter, out: &mut Vec<char>)
        ensures
            final(out)@ == old(out)@ + fmt_parameter(param@),
    {
        let ghost start = out@;
        extend_chars(out, param.name.as_str());
        if let Some(v) = &param.default_value {
            out.push('=');
            extend_chars(out, v.raw.as_str());
        }
        assert(out@ =~= start + fmt_parameter(param@));
    }

    fn format_argument(&self, arg: &CstArgument, out: &mut Vec<char>)
        ensures
            final(out)@ == old(out)@ + fmt_argument(arg@),
    {
        let ghost start = out@;
        extend_chars(out, arg.name.as_str());
        if let Some(v) = &arg.value {
            out.push('=');
            extend_chars(out, v.raw.as_str());
        }
        assert(out@ =~= start + fmt_argument(arg@));
    }

    fn format_arguments(
        &self,
        args: &Vec<CstArgument>,
        syntax: CommandSyntax,
        out: &mut Vec<char>,
    )
        requires
            args@.len() > 0,
        ensures
            final(out)@ == old(out)@ + match syntax {
                CommandSyntax::Parenthesized { .. } => seq!['('] + fmt_args_comma(
                    crate::cst::cst_arguments_view(args@),
                ) + seq![')'],
                CommandSyntax::SpaceSeparated => fmt_args_space(
                    crate::cst::cst_arguments_view(args@),
                ),
            },
    {
        let ghost av = crate::cst::cst_arguments_view(args@);
        let ghost start = out@;
        match syntax {
            CommandSyntax::Parenthesized { .. } => {
                out.push('(');
                let ghost before = out@;
                let mut i: usize = 0;
                while i < args.len()
                    invariant
                        0 <= i <= args.len(),
                        av == crate::cst::cst_arguments_view(args@),
                        out@ == before + fmt_args_comma(av.take(i as int)),
                    decreases args.len() - i,
                {
                    assert(av.take(i + 1).drop_last() =~= av.take(i as int));
                    if i > 0 {
                        out.push(',');
                        out.push(' ');
                    }
                    self.format_argument(&args[i], out);
                    i += 1;
                    assert(out@ =~= before + fmt_args_comma(av.take(i as int)));
                }
                assert(av.take(i as int) =~= av);
                out.push(')');
                assert(out@ =~= start + seq!['('] + fmt_args_comma(av) + seq![')']);
            },
            CommandSyntax::SpaceSeparated => {
                let mut i: usize = 0;
                assert(start + fmt_args_space(av.take(0)) =~= start);
                while i < args.len()
                    invariant
                        0 <= i <= args.len(),
                        av == crate::cst::cst_arguments_view(args@),
                        out@ == start + fmt_args_space(av.take(i as int)),
                    decreases args.len() - i,
                {
                    assert(av.take(i + 1).drop_last() =~= av.take(i as int));
                    out.push(' ');
                    self.format_argument(&args[i], out);
                    i += 1;
                    assert(out@ =~= start + fmt_args_space(av.take(i as int)));
                }
                assert(av.take(i as int) =~= av);
            },
        }
    }

    fn format_call(
        &self,
        sigil: char,
        command: &String,
        args: &Vec<CstArgument>,
        syntax: CommandSyntax,
        level: usize,
        out: &mut Vec<char>,
    )
        requires
            level * self.indent_width() <= usize::MAX,
        ensures
            final(out)@ == old(out)@ + indent(self.indent_width(), level as nat) + seq![sigil]
                + command@ + (if args@.len() == 0 {
                Seq::empty()
            } else {
                match syntax {
                    CommandSyntax::Parenthesized { .. } => seq!['('] + fmt_args_comma(
                        crate::cst::cst_arguments_view(args@),
                    ) + seq![')'],
                    CommandSyntax::SpaceSeparated => fmt_args_space(
                        crate::cst::cst_arguments_view(args@),
                    ),
                }
            }) + seq!['\n'],
    {
        let ghost start = out@;
        self.indent(level, out);
        out.push(sigil);
        extend_chars(out, command.as_str());
        let ghost mid = out@;
        if args.len() > 0 {
            self.format_arguments(args, syntax, out);
        }
        out.push('\n');
        assert(args@.len() == 0 ==> mid + Seq::<char>::empty() =~= mid);
        assert(out@ =~= start + indent(self.indent_width(), level as nat) + seq![sigil] + command@
            + (if args@.len() == 0 {
            Seq::empty()
        } else {
            match syntax {
                CommandSyntax::Parenthesized { .. } => seq!['('] + fmt_args_comma(
                    crate::cst::cst_arguments_view(args@),
                ) + seq![')'],
                CommandSyntax::SpaceSeparated => fmt_args_space(
                    crate::cst::cst_arguments_view(args@),
                ),
            }
        }) + seq!['\n']);
    }

    fn format_command(&self, cmd: &CstCommand, level: usize, out: &mut Vec<char>)
        requires
            level * self.indent_width() <= usize::MAX,
        ensures
            final(out)@ == old(out)@ + fmt_call(self.indent_width(), level as nat, '@', cmd@),
    {
        self.format_call('@', &cmd.command, &cmd.arguments, cmd.syntax, level, out);
    }

    fn format_systemcall(&self, call: &CstSystemCall, level: usize, out: &mut Vec<char>)
        requires
            level * self.indent_width() <= usize::MAX,
        ensures
            final(out)@ == old(out)@ + fmt_call(self.indent_width(), level as nat, '#', call@),
    {
        self.format_call('#', &call.command, &call.arguments, call.syntax, level, out);
    }

    fn format_template_literal(&self, tpl: &CstTemplateLiteral, out: &mut Vec<char>)
        ensures
            final(out)@ == old(out)@ + fmt_template(tpl@.parts),
    {
        let ghost start = out@;
        let ghost parts = tpl@.parts;
        let mut i: usize = 0;
        assert(start + fmt_template(parts.take(0)) =~= start);
        while i < tpl.parts.len()
            invariant
                0 <= i <= tpl.parts.len(),
                parts == tpl@.parts,
                out@ == start + fmt_template(parts.take(i as int)),
            decreases tpl.parts.len() - i,
        {
            assert(parts.take(i + 1).drop_last() =~= parts.take(i as int));
            let ghost before = out@;
            match &tpl.parts[i] {
                CstTemplatePart::Text { content, .. } => {
                    extend_chars(out, content.as_str());
                },
                CstTemplatePart::Value { variable, .. } => {
                    out.push('$');
                    out.push('{');
                    let ghost b2 = out@;
                    let ghost chain = variable@;
                    let mut k: usize = 0;
                    while k < variable.chain.len()
                        invariant
                            0 <= k <= variable.chain.len(),
                            chain == variable@,
                            chain.len() == variable.chain.len(),
                            out@ == b2 + join_dots(chain.take(k as int)),
                        decreases variable.chain.len() - k,
                    {
                        assert(chain.take(k + 1).drop_last() =~= chain.take(k as int));
                        if k > 0 {
                            out.push('.');
                        }
                        extend_chars(out, variable.chain[k].as_str());
                        k += 1;
                        assert(out@ =~= b2 + join_dots(chain.take(k as int)));
                    }
                    assert(chain.take(k as int) =~= chain);
                    out.push('}');
                },
            }
            assert(out@ =~= before + fmt_template_part(parts[i as int]));
            i += 1;
            assert(out@ =~= start + fmt_template(parts.take(i as int)));
        }
        assert(parts.take(i as int) =~= parts);
    }

    fn format_leading_text(&self, leading: &CstLeadingText, out: &mut Vec<char>)
        ensures
            final(out)@ == old(out)@ + fmt_leading(leading@),
    {
        let ghost start = out@;
        out.push('[');
        match &leading.content {
            CstLeadingTextContent::Text(s) => extend_chars(out, s.as_str()),
            CstLeadingTextContent::Template(tpl) => {
                out.push('`');
                self.format_template_literal(tpl, out);
                out.push('`');
            },
        }
        out.push(']');
        assert(out@ =~= start + fmt_leading(leading@));
    }

    fn format_text_line(&self, text: &CstTextLine, level: usize, out: &mut Vec<char>)
        requires
            level * self.indent_width() <= usize::MAX,
        ensures
            final(out)@ == old(out)@ + fmt_text_line(self.indent_width(), level as nat, text@),
    {
        let ghost start = out@;
        self.indent(level, out);
        let ghost a = out@;
        if let Some(leading) = &text.leading {
            self.format_leading_text(leading, out);
            out.push(' ');
        }
        let ghost b = out@;
        if let Some(main) = &text.text {
            extend_chars(out, main.raw.as_str());
        }
        let ghost c = out@;
        if let Some(tailing) = &text.tailing {
            out.push(' ');
            out.push('#');
            extend_chars(out, tailing.marker.as_str());
        }
        out.push('\n');
        assert(out@ =~= start + fmt_text_line(self.indent_width(), level as nat, text@));
    }

    fn format_trivia(&self, trivia: &CstTrivia, level: usize, out: &mut Vec<char>)
        requires
            level * self.indent_width() <= usize::MAX,
        ensures
            final(out)@ == old(out)@ + fmt_trivia(self.indent_width(), level as nat, trivia@),
    {
        let ghost start = out@;
        match trivia {
            CstTrivia::Whitespace { content, .. } => {
                let cs = chars_of(content.as_str());
                if count_char_exec(&cs, '\n') >= 2 {
                    out.push('\n');
                }
                assert(out@ =~= start + fmt_trivia(self.indent_width(), level as nat, trivia@));
            },
            CstTrivia::LineComment { content, .. } => {
                self.indent(level, out);
                out.push('/');
                out.push('/');
                extend_chars(out, content.as_str());
                out.push('\n');
                assert(out@ =~= start + fmt_trivia(self.indent_width(), level as nat, trivia@));
            },
            CstTrivia::BlockComment { content, .. } => {
                let cs = chars_of(content.as_str());
                let lines = lines_exec(&cs);
                if lines.len() <= 1 {
                    self.indent(level, out);
                    out.push('/');
                    out.push('*');
                    extend_chars(out, content.as_str());
                    out.push('*');
                    out.push('/');
                    out.push('\n');
                    assert(out@ =~= start + fmt_trivia(self.indent_width(), level as nat, trivia@));
                } else {
                    self.indent(level, out);
                    out.push('/');
                    out.push('*');
                    out.push('\n');
                    let ghost before = out@;
                    let ghost ls = str_lines(cs@);
                    let mut i: usize = 0;
                    assert(before + fmt_comment_lines(self.indent_width(), level as nat, ls.take(0)) =~= before);
                    while i < lines.len()
                        invariant
                            0 <= i <= lines@.len(),
                            ls == str_lines(cs@),
                            lines@.len() == ls.len(),
                            level * self.indent_width() <= usize::MAX,
                            forall|j: int| 0 <= j < lines@.len() ==> (#[trigger] lines@[j])@ == ls[j],
                            out@ == before + fmt_comment_lines(self.indent_width(), level as nat, ls.take(i as int)),
                        decreases lines.len() - i,
                    {
                        assert(ls.take(i + 1).drop_last() =~= ls.take(i as int));
                        let ghost b2 = out@;
                        self.indent(level, out);
                        out.push(' ');
                        out.push('*');
                        let line = &lines[i];
                        if line.len() > 0 {
                            out.push(' ');
                            let lo = skip_ws_forward(line, 0, line.len());
                            let hi = skip_ws_backward(line, lo, line.len());
                            proof {
                                assert(line@.subrange(0, line@.len() as int) =~= line@);
                                assert(line@.skip(lo as int) =~= line@.subrange(lo as int, line@.len() as int));
                                let t = line@.skip(lo as int);
                                assert(t.take(t.len() - (line@.len() - hi)) =~= line@.subrange(lo as int, hi as int));
                            }
                            extend_from(out, line, lo, hi);
                        }
                        out.push('\n');
                        assert(out@ =~= b2 + fmt_comment_line(self.indent_width(), level as nat, ls[i as int]));
                        i += 1;
                        assert(out@ =~= before + fmt_comment_lines(self.indent_width(), level as nat, ls.take(i as int)));
                    }
                    assert(ls.take(i as int) =~= ls);
                    let ghost mid = out@;
                    self.indent(level, out);
                    out.push(' ');
                    out.push('*');
                    out.push('/');
                    out.push('\n');
                    assert(out@ =~= start + fmt_trivia(self.indent_width(), level as nat, trivia@));
                }
            },
        }
    }

    fn format_embedded_code(&self, code: &CstEmbeddedCode, level: usize, out: &mut Vec<char>)
        requires
            level * self.indent_width() <= usize::MAX,
        ensures
            final(out)@ == old(out)@ + fmt_embedded(self.indent_width(), level as nat, code@),
    {
        let ghost start = out@;
        let cs = chars_of(code.code.as_str());
        let lo = skip_ws_forward(&cs, 0, cs.len());
        let hi = skip_ws_backward(&cs, lo, cs.len());
        proof {
            assert(cs@.subrange(0, cs@.len() as int) =~= cs@);
            let t = cs@.skip(lo as int);
            assert(t =~= cs@.subrange(lo as int, cs@.len() as int));
            assert(t.take(t.len() - (cs@.len() - hi)) =~= cs@.subrange(lo as int, hi as int));
        }
        let ghost trimmed = cs@.subrange(lo as int, hi as int);
        assert(trimmed == trim(code@.code));
        let mut has_lf = false;
        let mut k: usize = lo;
        while k < hi
            invariant
                lo <= k <= hi <= cs@.len(),
                has_lf == exists|j: int| lo <= j < k && cs@[j] == '\n',
            decreases hi - k,
        {
            if cs[k] == '\n' {
                has_lf = true;
            }
            k += 1;
        }
        proof {
            if has_lf {
                let j = choose|j: int| lo <= j < k && cs@[j] == '\n';
                assert(trimmed[j - lo] == '\n');
            } else {
                assert forall|j: int| 0 <= j < trimmed.len() implies trimmed[j] != '\n' by {
                    assert(trimmed[j] == cs@[lo + j]);
                }
            }
        }
        assert(has_lf == trimmed.contains('\n'));
        match code.syntax {
            EmbeddedCodeSyntax::Brace => {
                self.indent(level, out);
                out.push('@');
                out.push('{');
                if has_lf {
                    out.push('\n');
                    let (a, b) = trim_newlines_bounds(&cs);
                    extend_from(out, &cs, a, b);
                    out.push('\n');
                    self.indent(level, out);
                    out.push('}');
                    out.push('\n');
                } else {
                    out.push(' ');
                    extend_from(out, &cs, lo, hi);
                    out.push(' ');
                    out.push('}');
                    out.push('\n');
                }
            },
            EmbeddedCodeSyntax::Hash => {
                self.indent(level, out);
                out.push('#');
                out.push('#');
                if has_lf {
                    out.push('\n');
                    extend_from(out, &cs, 0, cs.len());
                    let n = cs.len();
                    let ends_lf = n > 0 && cs[n - 1] == '\n';
                    proof {
                        if n > 0 {
                            assert(cs@.skip(n - 1) =~= seq![cs@[n - 1]]);
                        }
                    }
                    proof {
                        assert(cs@.subrange(0, cs@.len() as int) =~= cs@);
                        if n > 0 {
                            assert(cs@.skip(n - 1)[0] == cs@[n - 1]);
                            assert(cs@[n - 1] == '\n' ==> cs@.skip(n - 1) =~= seq!['\n']);
                        }
                        assert(ends_lf == ends_with(code@.code, seq!['\n']));
                    }
                    if !ends_lf {
                        out.push('\n');
                    }
                    self.indent(level, out);
                    out.push('#');
                    out.push('#');
                    out.push('\n');
                } else {
                    out.push(' ');
                    extend_from(out, &cs, lo, hi);
                    out.push(' ');
                    out.push('#');
                    out.push('#');
                    out.push('\n');
                }
            },
        }
        assert(out@ =~= start + fmt_embedded(self.indent_width(), level as nat, code@));
    }

    fn format_attribute(&self, attr: &CstAttribute, level: usize, out: &mut Vec<char>)
        requires
            level * self.indent_width() <= usize::MAX,
        ensures
            final(out)@ == old(out)@ + fmt_attribute(self.indent_width(), level as nat, attr@),
    {
        let ghost start = out@;
        self.indent(level, out);
        out.push('#');
        out.push('[');
        extend_chars(out, attr.keyword.as_str());
        if let Some(c) = &attr.condition {
            out.push('(');
            out.push('"');
            extend_chars(out, c.as_str());
            out.push('"');
            out.push(')');
        }
        out.push(']');
        out.push('\n');
        assert(out@ =~= start + fmt_attribute(self.indent_width(), level as nat, attr@));
    }
}

/// The lines of `v` as `str::lines` gives them.
fn lines_exec(v: &Vec<char>) -> (r: Vec<Vec<char>>)
    ensures
        r@.len() == str_lines(v@).len(),
        forall|j: int| 0 <= j < r@.len() ==> (#[trigger] r@[j])@ == str_lines(v@)[j],
{
    let pieces = split_lf_exec(v);
    proof {
        lemma_split_lf_len(v@);
    }
    let ghost p = split_lf(v@);
    let k = pieces.len();
    let (last_lo, last_hi) = pieces[k - 1];
    let last_empty = last_lo == last_hi;
    let mut r: Vec<Vec<char>> = Vec::new();
    let mut i: usize = 0;
    while i + 1 < k
        invariant
            k == pieces@.len(),
            k == p.len(),
            k >= 1,
            p == split_lf(v@),
            0 <= i < k,
            r@.len() == i,
            forall|j: int|
                0 <= j < k ==> {
                    &&& (#[trigger] pieces@[j]).0 <= pieces@[j].1 <= v@.len()
                    &&& v@.subrange(pieces@[j].0 as int, pieces@[j].1 as int) == p[j]
                },
            forall|j: int| 0 <= j < i ==> (#[trigger] r@[j])@ == strip_cr(p[j]),
        decreases k - i,
    {
        let (lo, hi) = pieces[i];
        let mut line: Vec<char> = Vec::new();
        let end = if hi > lo && v[hi - 1] == '\r' {
            hi - 1
        } else {
            hi
        };
        extend_from(&mut line, v, lo, end);
        assert(line@ =~= strip_cr(p[i as int]));
        r.push(line);
        i += 1;
    }
    if !last_empty {
        let mut line: Vec<char> = Vec::new();
        extend_from(&mut line, v, last_lo, last_hi);
        r.push(line);
    }
    proof {
        let terminated = p.drop_last().map_values(|x: Seq<char>| strip_cr(x));
        assert(p.last().len() == 0 <==> last_empty);
    }
    r
}


fn node_depth_exec(n: &CstNode) -> (r: Option<usize>)
    ensures
        match r {
            Some(d) => d == node_depth(n@),
            None => node_depth(n@) > usize::MAX,
        },
    decreases n, 1nat,
{
    match n {
        CstNode::Paragraph(p) => {
            assert(decreases_to!(*n => p.block));
            match nodes_depth_exec(&p.block.children) {
                Some(d) => d.checked_add(1),
                None => None,
            }
        },
        CstNode::Block(b) => match nodes_depth_exec(&b.children) {
            Some(d) => d.checked_add(1),
            None => None,
        },
        _ => Some(0),
    }
}

fn nodes_depth_exec(ns: &Vec<CstNode>) -> (r: Option<usize>)
    ensures
        match r {
            Some(d) => d == nodes_depth(crate::cst::cst_nodes_view(*ns)),
            None => nodes_depth(crate::cst::cst_nodes_view(*ns)) > usize::MAX,
        },
    decreases ns, 0nat,
{
    let ghost s = crate::cst::cst_nodes_view(*ns);
    let mut i: usize = ns.len();
    let mut acc: usize = 0;
    assert(s.skip(i as int) =~= Seq::<CstNodeV>::empty());
    while i > 0
        invariant
            0 <= i <= ns@.len(),
            s == crate::cst::cst_nodes_view(*ns),
            s.len() == ns@.len(),
            acc == nodes_depth(s.skip(i as int)),
        decreases i,
    {
        assert(decreases_to!(*ns => ns@[i - 1]));
        let d = match node_depth_exec(&ns[i - 1]) {
            Some(d) => d,
            None => {
                proof {
                    assert(s.skip(i - 1)[0] == ns@[i - 1]@);
                    assert(s.skip(i - 1).drop_first() =~= s.skip(i as int));
                    let k = (i - 1) as int;
                    assert(nodes_depth(s.skip(k)) >= node_depth(s.skip(k)[0]));
                    lemma_nodes_depth_suffix(s, k);
                }
                return None;
            },
        };
        proof {
            assert(s.skip(i - 1)[0] == ns@[i - 1]@);
            assert(s.skip(i - 1).drop_first() =~= s.skip(i as int));
        }
        if d > acc {
            acc = d;
        }
        i -= 1;
    }
    assert(s.skip(0) =~= s);
    Some(acc)
}

proof fn lemma_nodes_depth_suffix(s: Seq<CstNodeV>, k: int)
    requires
        0 <= k <= s.len(),
    ensures
        nodes_depth(s.skip(k)) <= nodes_depth(s),
    decreases k,
{
    if k > 0 {
        assert(s.drop_first().skip(k - 1) =~= s.skip(k));
        lemma_nodes_depth_suffix(s.drop_first(), k - 1);
    } else {
        assert(s.skip(0) =~= s);
    }
}

impl CstFormatter {
    /// Whether `format` can lay out this tree: its indentation fits the
    /// machine (see `indent_fits`).
    pub fn can_format(&self, root: &CstRoot) -> (r: bool)
        ensures
            r == indent_fits(self.indent_width(), 0, nodes_depth(root@.nodes)),
    {
        match nodes_depth_exec(&root.nodes) {
            Some(d) => d.checked_mul(self.indent_size).is_some(),
            None => false,
        }
    }
}

} // verus!
