//! Writing a story back as text from its abstract syntax, for editors:
//! paragraphs, blocks indented by four spaces per level, and each line
//! in its canonical form.
use vstd::prelude::*;

use crate::format::{
    Argument, ArgumentV, Attribute, AttributeV, Block, Child, ChildContent, ChildContentV, ChildV,
    LeadingText, LeadingTextV, Literal, LiteralV, Paragraph, ParagraphV, ParameterV, RValue,
    RValueV, Story, StoryV, TailingText, TailingTextV, TemplateLiteralPart, TemplatePartV, Text,
    TextV, arguments_view, strings_view,
};
use crate::text::{push_char, push_str};

verus! {

broadcast use vstd::std_specs::vec::axiom_vec_index_decreases;

// ---------------------------------------------------------------------
// Numbers and strings
// ---------------------------------------------------------------------

pub open spec fn digit_char(d: int) -> char {
    (48 + d) as char
}

/// The decimal digits of `n`.
pub open spec fn nat_text(n: nat) -> Seq<char>
    decreases n,
{
    if n < 10 {
        seq![digit_char(n as int)]
    } else {
        nat_text(n / 10).push(digit_char((n % 10) as int))
    }
}

/// `i64::to_string`: decimal, with `-` before a negative number.
pub open spec fn int_text(i: int) -> Seq<char> {
    if i < 0 {
        seq!['-'] + nat_text((-i) as nat)
    } else {
        nat_text(i as nat)
    }
}

fn nat_text_exec(n: u64) -> (r: Vec<char>)
    ensures
        r@ == nat_text(n as nat),
    decreases n,
{
    if n < 10 {
        let mut v: Vec<char> = Vec::new();
        v.push(digit_exec(n));
        assert(v@ =~= seq![digit_char(n as int)]);
        v
    } else {
        let mut v = nat_text_exec(n / 10);
        v.push(digit_exec(n % 10));
        v
    }
}

fn digit_exec(d: u64) -> (c: char)
    requires
        d < 10,
    ensures
        c == digit_char(d as int),
{
    let b: u8 = 48 + (d as u8);
    b as char
}

pub(crate) fn int_text_exec(i: i64) -> (r: String)
    ensures
        r@ == int_text(i as int),
{
    let mut s = String::new();
    let digits = if i < 0 {
        push_char(&mut s, '-');
        let m: u64 = if i == i64::MIN {
            9_223_372_036_854_775_808
        } else {
            (-i) as u64
        };
        nat_text_exec(m)
    } else {
        nat_text_exec(i as u64)
    };
    let mut k: usize = 0;
    let ghost start = s@;
    while k < digits.len()
        invariant
            0 <= k <= digits@.len(),
            s@ == start + digits@.take(k as int),
        decreases digits.len() - k,
    {
        push_char(&mut s, digits[k]);
        k += 1;
        assert(s@ =~= start + digits@.take(k as int));
    }
    assert(digits@.take(k as int) =~= digits@);
    s
}

/// What `str::escape_debug` writes for a text.
pub uninterp spec fn escape_debug(s: Seq<char>) -> Seq<char>;

/// `str::escape_debug`, collected into a string: std escapes quotes,
/// backslashes and control characters, and writes characters that are
/// not printable as `\u{..}`; the contract names that result.
#[verifier::external_body]
fn escape_debug_of(s: &str) -> (r: String)
    ensures
        r@ == escape_debug(s@),
{
    s.escape_debug().to_string()
}

/// The text given for the bit pattern of a float, or nothing when the
/// table has none.
pub open spec fn float_text(table: Seq<(u64, Seq<char>)>, bits: u64) -> Seq<char>
    decreases table.len(),
{
    if table.len() == 0 {
        Seq::empty()
    } else if table[0].0 == bits {
        table[0].1
    } else {
        float_text(table.drop_first(), bits)
    }
}

/// Texts of float values by their bit patterns.
pub type FloatTexts = Vec<(u64, String)>;

pub open spec fn float_texts_view(t: Seq<(u64, String)>) -> Seq<(u64, Seq<char>)> {
    t.map_values(|e: (u64, String)| (e.0, e.1@))
}

pub(crate) fn float_text_exec(table: &FloatTexts, bits: u64) -> (r: String)
    ensures
        r@ == float_text(float_texts_view(table@), bits),
{
    let mut k: usize = 0;
    assert(float_texts_view(table@).skip(0) =~= float_texts_view(table@));
    while k < table.len()
        invariant
            0 <= k <= table@.len(),
            float_text(float_texts_view(table@).skip(k as int), bits) == float_text(
                float_texts_view(table@),
                bits,
            ),
        decreases table.len() - k,
    {
        let ghost rest = float_texts_view(table@).skip(k as int);
        assert(rest.drop_first() =~= float_texts_view(table@).skip(k + 1));
        if table[k].0 == bits {
            assert(rest[0] == (table@[k as int].0, table@[k as int].1@));
            return table[k].1.clone();
        }
        k += 1;
    }
    String::new()
}

// ---------------------------------------------------------------------
// The text of each part
// ---------------------------------------------------------------------

/// A literal: `null`, a string in double quotes (unescaped), a number, a
/// boolean, and `[...]` or `{...}` for arrays and objects.
pub open spec fn fmt_literal(l: LiteralV, floats: Seq<(u64, Seq<char>)>) -> Seq<char> {
    match l {
        LiteralV::Null => "null"@,
        LiteralV::Str(s) => seq!['"'] + s + seq!['"'],
        LiteralV::Integer(i) => int_text(i as int),
        LiteralV::Float(b) => float_text(floats, b),
        LiteralV::Boolean(b) => if b {
            "true"@
        } else {
            "false"@
        },
        LiteralV::Array(_) => "[...]"@,
        LiteralV::Object(_) => "{...}"@,
    }
}

/// The parts of a variable path joined by dots.
pub open spec fn join_dots(chain: Seq<Seq<char>>) -> Seq<char>
    decreases chain.len(),
{
    if chain.len() == 0 {
        Seq::empty()
    } else if chain.len() == 1 {
        chain[0]
    } else {
        join_dots(chain.drop_last()) + seq!['.'] + chain.last()
    }
}

pub open spec fn fmt_value(v: RValueV, floats: Seq<(u64, Seq<char>)>) -> Seq<char> {
    match v {
        RValueV::Literal(l) => fmt_literal(l, floats),
        RValueV::Variable(c) => join_dots(c),
    }
}

/// A template: its text, and `${value}` for each value.
pub open spec fn fmt_template(parts: Seq<TemplatePartV>, floats: Seq<(u64, Seq<char>)>) -> Seq<char>
    decreases parts.len(),
{
    if parts.len() == 0 {
        Seq::empty()
    } else {
        fmt_template(parts.drop_last(), floats) + match parts.last() {
            TemplatePartV::Text(t) => t,
            TemplatePartV::Value(v) => "${"@ + fmt_value(v, floats) + seq!['}'],
        }
    }
}

/// Each attribute as `@keyword(condition) `.
pub open spec fn fmt_attributes(attrs: Seq<AttributeV>) -> Seq<char>
    decreases attrs.len(),
{
    if attrs.len() == 0 {
        Seq::empty()
    } else {
        let a = attrs.last();
        fmt_attributes(attrs.drop_last()) + seq!['@'] + a.keyword + match a.condition {
            Some(c) => seq!['('] + c + seq![')'],
            None => Seq::empty(),
        } + seq![' ']
    }
}

/// Each argument as ` name=value`, where `=true` is left out.
pub open spec fn fmt_arguments(args: Seq<ArgumentV>, floats: Seq<(u64, Seq<char>)>) -> Seq<char>
    decreases args.len(),
{
    if args.len() == 0 {
        Seq::empty()
    } else {
        let a = args.last();
        fmt_arguments(args.drop_last(), floats) + seq![' '] + a.name + match a.value {
            RValueV::Literal(LiteralV::Boolean(true)) => Seq::empty(),
            v => seq!['='] + fmt_value(v, floats),
        }
    }
}

pub open spec fn fmt_leading(l: LeadingTextV, floats: Seq<(u64, Seq<char>)>) -> Seq<char> {
    match l {
        LeadingTextV::Absent => Seq::empty(),
        LeadingTextV::Text(t) => seq!['['] + t + "] "@,
        LeadingTextV::Template(t) => "[`"@ + fmt_template(t, floats) + "`] "@,
    }
}

pub open spec fn fmt_text(t: TextV, floats: Seq<(u64, Seq<char>)>) -> Seq<char> {
    match t {
        TextV::Absent => Seq::empty(),
        TextV::Text(s) => seq!['"'] + escape_debug(s) + seq!['"'],
        TextV::Template(p) => seq!['`'] + fmt_template(p, floats) + seq!['`'],
    }
}

pub open spec fn fmt_tailing(g: TailingTextV) -> Seq<char> {
    match g {
        TailingTextV::Absent => Seq::empty(),
        TailingTextV::Text(t) => " #"@ + t,
    }
}

/// `t` written `n` times.
pub open spec fn repeat(t: Seq<char>, n: nat) -> Seq<char>
    decreases n,
{
    if n == 0 {
        Seq::empty()
    } else {
        repeat(t, (n - 1) as nat) + t
    }
}

/// A line of a block at indentation `level`, without its indentation.
pub open spec fn fmt_child(c: ChildV, level: nat, ind: Seq<char>, floats: Seq<(u64, Seq<char>)>) -> Seq<
    char,
>
    decreases c, 0nat,
{
    fmt_attributes(c.attributes) + match c.content {
        ChildContentV::Block(b) => "{\n"@ + fmt_block(b, level + 1, ind, floats) + repeat(ind, level)
            + seq!['}'],
        ChildContentV::TextLine(l, t, g) => fmt_leading(l, floats) + fmt_text(t, floats)
            + fmt_tailing(g),
        ChildContentV::CommandLine(cl) => seq!['@'] + cl.command + fmt_arguments(
            cl.arguments,
            floats,
        ),
        ChildContentV::SystemCallLine(sl) => seq!['#'] + sl.command + fmt_arguments(
            sl.arguments,
            floats,
        ),
        ChildContentV::EmbeddedCode(code) => "@{ "@ + code + " }"@,
    }
}

/// The lines of a block, each indented `level` times and ended.
pub open spec fn fmt_children(
    b: Seq<ChildV>,
    level: nat,
    ind: Seq<char>,
    floats: Seq<(u64, Seq<char>)>,
) -> Seq<char>
    decreases b, 0nat,
{
    if b.len() == 0 {
        Seq::empty()
    } else {
        fmt_children(b.drop_last(), level, ind, floats) + repeat(ind, level) + fmt_child(
            b.last(),
            level,
            ind,
            floats,
        ) + seq!['\n']
    }
}

pub open spec fn fmt_block(b: Seq<ChildV>, level: nat, ind: Seq<char>, floats: Seq<(u64, Seq<char>)>) -> Seq<
    char,
>
    decreases b, 1nat,
{
    fmt_children(b, level, ind, floats)
}

pub open spec fn fmt_parameter(p: ParameterV, floats: Seq<(u64, Seq<char>)>) -> Seq<char> {
    p.name + match p.default_value {
        Some(d) => seq!['='] + fmt_literal(d, floats),
        None => Seq::empty(),
    }
}

/// The parameters separated by `, `.
pub open spec fn fmt_parameter_list(ps: Seq<ParameterV>, floats: Seq<(u64, Seq<char>)>) -> Seq<char>
    decreases ps.len(),
{
    if ps.len() == 0 {
        Seq::empty()
    } else if ps.len() == 1 {
        fmt_parameter(ps[0], floats)
    } else {
        fmt_parameter_list(ps.drop_last(), floats) + ", "@ + fmt_parameter(ps.last(), floats)
    }
}

/// A parameter list `(a, b=default)`, or nothing without parameters.
pub open spec fn fmt_parameters(ps: Seq<ParameterV>, floats: Seq<(u64, Seq<char>)>) -> Seq<char> {
    if ps.len() == 0 {
        Seq::empty()
    } else {
        seq!['('] + fmt_parameter_list(ps, floats) + seq![')']
    }
}

/// A paragraph: `::name(params) {`, its block at level 1, and `}`.
pub open spec fn fmt_paragraph(p: ParagraphV, ind: Seq<char>, floats: Seq<(u64, Seq<char>)>) -> Seq<
    char,
> {
    "::"@ + p.name + fmt_parameters(p.parameters, floats) + " {\n"@ + fmt_block(
        p.block,
        1,
        ind,
        floats,
    ) + "}\n"@
}

/// The paragraphs of a story separated by line feeds.
pub open spec fn fmt_paragraphs(ps: Seq<ParagraphV>, ind: Seq<char>, floats: Seq<(u64, Seq<char>)>) -> Seq<
    char,
>
    decreases ps.len(),
{
    if ps.len() == 0 {
        Seq::empty()
    } else if ps.len() == 1 {
        fmt_paragraph(ps[0], ind, floats)
    } else {
        fmt_paragraphs(ps.drop_last(), ind, floats) + seq!['\n'] + fmt_paragraph(
            ps.last(),
            ind,
            floats,
        )
    }
}

// ---------------------------------------------------------------------
// Nesting depth
// ---------------------------------------------------------------------

/// How deeply blocks nest in a line.
pub open spec fn child_depth(c: ChildV) -> nat
    decreases c, 1nat,
{
    match c.content {
        ChildContentV::Block(b) => 1 + children_depth(b),
        _ => 0,
    }
}

/// How deeply blocks nest in the lines of a block.
pub open spec fn children_depth(b: Seq<ChildV>) -> nat
    decreases b, 0nat,
{
    if b.len() == 0 {
        0
    } else {
        let d = children_depth(b.drop_last());
        let e = child_depth(b.last());
        if d >= e {
            d
        } else {
            e
        }
    }
}

pub proof fn lemma_children_depth(b: Seq<ChildV>, k: int)
    requires
        0 <= k < b.len(),
    ensures
        child_depth(b[k]) <= children_depth(b),
    decreases b.len(),
{
    if k < b.len() - 1 {
        lemma_children_depth(b.drop_last(), k);
        assert(b.drop_last()[k] == b[k]);
    }
}

/// Whether the indentation levels of a story fit the machine.
pub open spec fn depth_fits(st: StoryV) -> bool {
    forall|i: int|
        0 <= i < st.paragraphs.len() ==> children_depth(#[trigger] st.paragraphs[i].block) + 2
            < usize::MAX
}

// ---------------------------------------------------------------------
// The formatter
// ---------------------------------------------------------------------

/// Writes stories as text, indenting blocks by four spaces per level.
pub struct Formatter {
    indent_str: String,
}

fn join_dots_exec(out: &mut String, chain: &Vec<String>)
    ensures
        final(out)@ == old(out)@ + join_dots(strings_view(chain@)),
{
    let ghost c = strings_view(chain@);
    let ghost start = out@;
    let mut k: usize = 0;
    assert(start + join_dots(c.take(0)) =~= start);
    while k < chain.len()
        invariant
            0 <= k <= chain@.len(),
            c == strings_view(chain@),
            c.len() == chain@.len(),
            out@ == start + join_dots(c.take(k as int)),
        decreases chain.len() - k,
    {
        let ghost before = out@;
        if k > 0 {
            push_char(out, '.');
        }
        push_str(out, chain[k].as_str());
        assert(c.take(k + 1).drop_last() =~= c.take(k as int));
        assert(c.take(k + 1).last() == chain@[k as int]@);
        if k == 0 {
            assert(c.take(1) =~= seq![c[0]]);
        }
        k += 1;
        assert(out@ =~= start + join_dots(c.take(k as int)));
    }
    assert(c.take(k as int) =~= c);
}

fn format_literal(out: &mut String, l: &Literal, floats: &FloatTexts)
    ensures
        final(out)@ == old(out)@ + fmt_literal(l@, float_texts_view(floats@)),
{
    let ghost start = out@;
    match l {
        Literal::Null => push_str(out, "null"),
        Literal::String(s) => {
            push_char(out, '"');
            push_str(out, s.as_str());
            push_char(out, '"');
        },
        Literal::Integer(i) => {
            let t = int_text_exec(*i);
            push_str(out, t.as_str());
        },
        Literal::Float(b) => {
            let t = float_text_exec(floats, *b);
            push_str(out, t.as_str());
        },
        Literal::Boolean(b) => {
            if *b {
                push_str(out, "true");
            } else {
                push_str(out, "false");
            }
        },
        Literal::Array(_) => push_str(out, "[...]"),
        Literal::Object(_) => push_str(out, "{...}"),
    }
    assert(out@ =~= start + fmt_literal(l@, float_texts_view(floats@)));
}

fn format_value(out: &mut String, v: &RValue, floats: &FloatTexts)
    ensures
        final(out)@ == old(out)@ + fmt_value(v@, float_texts_view(floats@)),
{
    match v {
        RValue::Literal(l) => format_literal(out, l, floats),
        RValue::Variable(x) => join_dots_exec(out, &x.chain),
    }
}

fn format_template(out: &mut String, parts: &Vec<TemplateLiteralPart>, floats: &FloatTexts)
    ensures
        final(out)@ == old(out)@ + fmt_template(
            parts@.map_values(|p: TemplateLiteralPart| p@),
            float_texts_view(floats@),
        ),
{
    let ghost pv = parts@.map_values(|p: TemplateLiteralPart| p@);
    let ghost fl = float_texts_view(floats@);
    let ghost start = out@;
    let mut k: usize = 0;
    assert(start + fmt_template(pv.take(0), fl) =~= start);
    while k < parts.len()
        invariant
            0 <= k <= parts@.len(),
            pv == parts@.map_values(|p: TemplateLiteralPart| p@),
            fl == float_texts_view(floats@),
            out@ == start + fmt_template(pv.take(k as int), fl),
        decreases parts.len() - k,
    {
        let ghost before = out@;
        match &parts[k] {
            TemplateLiteralPart::Text(t) => push_str(out, t.as_str()),
            TemplateLiteralPart::Value(v) => {
                push_str(out, "${");
                format_value(out, v, floats);
                push_char(out, '}');
            },
        }
        assert(pv.take(k + 1).drop_last() =~= pv.take(k as int));
        assert(pv.take(k + 1).last() == parts@[k as int]@);
        k += 1;
        assert(out@ =~= start + fmt_template(pv.take(k as int), fl));
    }
    assert(pv.take(k as int) =~= pv);
}

fn format_attributes(out: &mut String, attrs: &Vec<Attribute>)
    ensures
        final(out)@ == old(out)@ + fmt_attributes(attrs@.map_values(|a: Attribute| a@)),
{
    let ghost av = attrs@.map_values(|a: Attribute| a@);
    let ghost start = out@;
    let mut k: usize = 0;
    assert(start + fmt_attributes(av.take(0)) =~= start);
    while k < attrs.len()
        invariant
            0 <= k <= attrs@.len(),
            av == attrs@.map_values(|a: Attribute| a@),
            out@ == start + fmt_attributes(av.take(k as int)),
        decreases attrs.len() - k,
    {
        let a = &attrs[k];
        push_char(out, '@');
        push_str(out, a.keyword.as_str());
        if let Some(c) = &a.condition {
            push_char(out, '(');
            push_str(out, c.as_str());
            push_char(out, ')');
        }
        push_char(out, ' ');
        assert(av.take(k + 1).drop_last() =~= av.take(k as int));
        assert(av.take(k + 1).last() == a@);
        k += 1;
        assert(out@ =~= start + fmt_attributes(av.take(k as int)));
    }
    assert(av.take(k as int) =~= av);
}

fn format_arguments(out: &mut String, args: &Vec<Argument>, floats: &FloatTexts)
    ensures
        final(out)@ == old(out)@ + fmt_arguments(arguments_view(args@), float_texts_view(floats@)),
{
    let ghost av = arguments_view(args@);
    let ghost fl = float_texts_view(floats@);
    let ghost start = out@;
    let mut k: usize = 0;
    assert(start + fmt_arguments(av.take(0), fl) =~= start);
    while k < args.len()
        invariant
            0 <= k <= args@.len(),
            av == arguments_view(args@),
            fl == float_texts_view(floats@),
            out@ == start + fmt_arguments(av.take(k as int), fl),
        decreases args.len() - k,
    {
        let a = &args[k];
        push_char(out, ' ');
        push_str(out, a.name.as_str());
        match &a.value {
            RValue::Literal(Literal::Boolean(true)) => {},
            v => {
                push_char(out, '=');
                format_value(out, v, floats);
            },
        }
        assert(av.take(k + 1).drop_last() =~= av.take(k as int));
        assert(av.take(k + 1).last() == a@);
        k += 1;
        assert(out@ =~= start + fmt_arguments(av.take(k as int), fl));
    }
    assert(av.take(k as int) =~= av);
}

fn format_text_line(
    out: &mut String,
    l: &LeadingText,
    t: &Text,
    g: &TailingText,
    floats: &FloatTexts,
)
    ensures
        final(out)@ == old(out)@ + fmt_leading(l@, float_texts_view(floats@)) + fmt_text(
            t@,
            float_texts_view(floats@),
        ) + fmt_tailing(g@),
{
    let ghost fl = float_texts_view(floats@);
    let ghost mid = out@;
    match l {
        LeadingText::Absent => {},
        LeadingText::Text(x) => {
            push_char(out, '[');
            push_str(out, x.as_str());
            push_str(out, "] ");
        },
        LeadingText::TemplateLiteral(x) => {
            push_str(out, "[`");
            format_template(out, &x.parts, floats);
            push_str(out, "`] ");
        },
    }
    let ghost after_leading = out@;
    assert(after_leading =~= mid + fmt_leading(l@, fl));
    match t {
        Text::Absent => {},
        Text::Text(x) => {
            push_char(out, '"');
            let e = escape_debug_of(x.as_str());
            push_str(out, e.as_str());
            push_char(out, '"');
        },
        Text::TemplateLiteral(x) => {
            push_char(out, '`');
            format_template(out, &x.parts, floats);
            push_char(out, '`');
        },
    }
    let ghost after_text = out@;
    assert(after_text =~= after_leading + fmt_text(t@, fl));
    match g {
        TailingText::Absent => {},
        TailingText::Text(x) => {
            push_str(out, " #");
            push_str(out, x.as_str());
        },
    }
    assert(out@ =~= after_text + fmt_tailing(g@));
}

impl Formatter {
    /// The indentation of one level.
    pub closed spec fn indent(&self) -> Seq<char> {
        self.indent_str@
    }

    /// A formatter that indents by four spaces.
    pub fn new() -> (r: Self)
        ensures
            r.indent() == "    "@,
    {
        Formatter { indent_str: "    ".to_owned() }
    }

    fn push_indent(&self, out: &mut String, level: usize)
        ensures
            final(out)@ == old(out)@ + repeat(self.indent(), level as nat),
    {
        let ghost start = out@;
        let mut k: usize = 0;
        while k < level
            invariant
                0 <= k <= level,
                out@ == start + repeat(self.indent(), k as nat),
            decreases level - k,
        {
            push_str(out, self.indent_str.as_str());
            k += 1;
            assert(out@ =~= start + repeat(self.indent(), k as nat));
        }
    }

    fn format_child(&self, out: &mut String, c: &Child, level: usize, floats: &FloatTexts)
        requires
            level + child_depth(c@) + 1 < usize::MAX,
        ensures
            final(out)@ == old(out)@ + fmt_child(c@, level as nat, self.indent(), float_texts_view(floats@)),
        decreases c, 0nat,
    {
        let ghost start = out@;
        let ghost fl = float_texts_view(floats@);
        format_attributes(out, &c.attributes);
        let ghost mid = out@;
        match &c.content {
            ChildContent::Block(b) => {
                push_str(out, "{\n");
                assert(decreases_to!(*c => c.content));
                self.format_block(out, b, level + 1, floats);
                self.push_indent(out, level);
                push_char(out, '}');
            },
            ChildContent::TextLine(l, t, g) => {
                format_text_line(out, l, t, g, floats);
            },
            ChildContent::CommandLine(cl) => {
                push_char(out, '@');
                push_str(out, cl.command.as_str());
                format_arguments(out, &cl.arguments, floats);
            },
            ChildContent::SystemCallLine(sl) => {
                push_char(out, '#');
                push_str(out, sl.command.as_str());
                format_arguments(out, &sl.arguments, floats);
            },
            ChildContent::EmbeddedCode(code) => {
                push_str(out, "@{ ");
                push_str(out, code.as_str());
                push_str(out, " }");
            },
        }
        assert(out@ =~= start + fmt_child(c@, level as nat, self.indent(), fl));
    }

    fn format_block(&self, out: &mut String, b: &Block, level: usize, floats: &FloatTexts)
        requires
            level + children_depth(b@) + 1 < usize::MAX,
        ensures
            final(out)@ == old(out)@ + fmt_block(b@, level as nat, self.indent(), float_texts_view(floats@)),
        decreases b, 1nat,
    {
        let ghost bv = b@;
        let ghost fl = float_texts_view(floats@);
        let ghost start = out@;
        let mut k: usize = 0;
        assert(start + fmt_children(bv.take(0), level as nat, self.indent(), fl) =~= start);
        while k < b.children.len()
            invariant
                0 <= k <= b.children@.len(),
                bv == b@,
                bv.len() == b.children@.len(),
                fl == float_texts_view(floats@),
                level + children_depth(bv) + 1 < usize::MAX,
                out@ == start + fmt_children(bv.take(k as int), level as nat, self.indent(), fl),
            decreases b.children.len() - k,
        {
            assert(bv.take(k + 1).drop_last() =~= bv.take(k as int));
            assert(bv.take(k + 1).last() == b.children@[k as int]@);
            proof {
                lemma_children_depth(bv, k as int);
            }
            assert(decreases_to!(*b => b.children));
            self.push_indent(out, level);
            self.format_child(out, &b.children[k], level, floats);
            push_char(out, '\n');
            k += 1;
            assert(out@ =~= start + fmt_children(bv.take(k as int), level as nat, self.indent(), fl));
        }
        assert(bv.take(k as int) =~= bv);
    }

    fn format_paragraph(&self, out: &mut String, p: &Paragraph, floats: &FloatTexts)
        requires
            children_depth(p@.block) + 2 < usize::MAX,
        ensures
            final(out)@ == old(out)@ + fmt_paragraph(p@, self.indent(), float_texts_view(floats@)),
    {
        let ghost fl = float_texts_view(floats@);
        let ghost start = out@;
        push_str(out, "::");
        push_str(out, p.name.as_str());
        let ghost pv = p@.parameters;
        if p.parameters.len() > 0 {
            push_char(out, '(');
            let ghost mid = out@;
            let mut k: usize = 0;
            while k < p.parameters.len()
                invariant
                    0 <= k <= p.parameters@.len(),
                    pv == p@.parameters,
                    pv.len() == p.parameters@.len(),
                    fl == float_texts_view(floats@),
                    out@ == mid + fmt_parameter_list(pv.take(k as int), fl),
                decreases p.parameters.len() - k,
            {
                let q = &p.parameters[k];
                if k > 0 {
                    push_str(out, ", ");
                }
                push_str(out, q.name.as_str());
                if let Some(d) = &q.default_value {
                    push_char(out, '=');
                    format_literal(out, d, floats);
                }
                assert(pv.take(k + 1).drop_last() =~= pv.take(k as int));
                assert(pv.take(k + 1).last() == q@);
                if k == 0 {
                    assert(pv.take(1) =~= seq![pv[0]]);
                }
                k += 1;
                assert(out@ =~= mid + fmt_parameter_list(pv.take(k as int), fl));
            }
            assert(pv.take(k as int) =~= pv);
            push_char(out, ')');
        }
        push_str(out, " {\n");
        self.format_block(out, &p.block, 1, floats);
        push_str(out, "}\n");
        assert(out@ =~= start + fmt_paragraph(p@, self.indent(), fl));
    }

    /// The text of a story: its paragraphs separated by line feeds, each
    /// `::name(params) {`, its block indented, and `}`. The text of each
    /// float is taken from `floats` by its bit pattern.
    pub fn format(&self, story: &Story, floats: &FloatTexts) -> (r: String)
        requires
            depth_fits(story@),
        ensures
            r@ == fmt_paragraphs(story@.paragraphs, self.indent(), float_texts_view(floats@)),
    {
        let ghost ps = story@.paragraphs;
        let ghost fl = float_texts_view(floats@);
        let mut out = String::new();
        let mut k: usize = 0;
        assert(out@ =~= fmt_paragraphs(ps.take(0), self.indent(), fl));
        while k < story.paragraphs.len()
            invariant
                0 <= k <= story.paragraphs@.len(),
                ps == story@.paragraphs,
                ps.len() == story.paragraphs@.len(),
                fl == float_texts_view(floats@),
                depth_fits(story@),
                out@ == fmt_paragraphs(ps.take(k as int), self.indent(), fl),
            decreases story.paragraphs.len() - k,
        {
            let ghost before = out@;
            if k > 0 {
                push_char(&mut out, '\n');
            }
            assert(ps[k as int] == story.paragraphs@[k as int]@);
            assert(children_depth(ps[k as int].block) + 2 < usize::MAX);
            self.format_paragraph(&mut out, &story.paragraphs[k], floats);
            assert(ps.take(k + 1).drop_last() =~= ps.take(k as int));
            assert(ps.take(k + 1).last() == ps[k as int]);
            if k == 0 {
                assert(ps.take(1) =~= seq![ps[0]]);
            }
            k += 1;
            assert(out@ =~= fmt_paragraphs(ps.take(k as int), self.indent(), fl));
        }
        assert(ps.take(k as int) =~= ps);
        out
    }
}

} // verus!
