//! What the language server answers, as functions of the document, the
//! schema and the cursor: diagnostics, completions, hovers, the targets of
//! jumps and the outline. Reading files and talking to the editor is left
//! to the caller.
use vstd::prelude::*;

use crate::cst::{
    cst_arguments_view, CstArgument, CstArgumentV, CstCallV, CstValue, CstCommand, CstNode,
    CstNodeV, CstParagraph, CstParagraphV, CstRoot, CstSystemCall, CstValueKind, CstValueV,
    cst_nodes_view, cst_paragraph_view,
};
use crate::cst_helper::{
    contains, extract_commands, extract_paragraphs, extract_system_calls, nodes_commands,
    nodes_paragraphs, nodes_system_calls, range_contains, span_to_range, Position, Range,
};
use crate::schema::{
    command_name, opt_text, property_get, texts_view, CommandDefinition, CommandSchema,
    DefinitionV, StringOrArray, TypeV,
};
use crate::span::SpanInfo;
use crate::text::{push_char, push_str, str_eq};

verus! {

broadcast use vstd::std_specs::vec::axiom_vec_index_decreases;

// ---------------------------------------------------------------------
// Diagnostics
// ---------------------------------------------------------------------

/// How serious a diagnostic is.
#[derive(Debug, Clone, Copy, PartialEq, Eq, Structural)]
pub enum Severity {
    Error,
    Warning,
}

/// A message about a range of the document.
pub struct Diagnostic {
    pub range: Range,
    pub severity: Severity,
    pub source: String,
    pub message: String,
}

pub struct DiagnosticV {
    pub range: Range,
    pub severity: Severity,
    pub source: Seq<char>,
    pub message: Seq<char>,
}

impl View for Diagnostic {
    type V = DiagnosticV;

    open spec fn view(&self) -> DiagnosticV {
        DiagnosticV {
            range: self.range,
            severity: self.severity,
            source: self.source@,
            message: self.message@,
        }
    }
}

pub open spec fn diagnostics_view(v: Seq<Diagnostic>) -> Seq<DiagnosticV> {
    v.map_values(|d: Diagnostic| d@)
}

/// The range of a span (see `span_to_range`).
pub open spec fn span_range(s: SpanInfo) -> Range {
    Range {
        start: Position { line: (s.start_line - 1) as u32, character: s.start_column as u32 },
        end: Position { line: (s.end_line - 1) as u32, character: s.end_column as u32 },
    }
}

pub open spec fn span_ok(s: SpanInfo) -> bool {
    s.start_line >= 1 && s.end_line >= 1
}

/// The lines that could not be read, with their messages, in a node and
/// the blocks in it.
pub open spec fn node_errors(n: CstNodeV) -> Seq<(SpanInfo, Seq<char>)>
    decreases n, 1nat,
{
    match n {
        CstNodeV::Error { content: _, span, message } => seq![(span, message)],
        CstNodeV::Paragraph(p) => nodes_errors(p.block.children),
        CstNodeV::Block(b) => nodes_errors(b.children),
        _ => Seq::empty(),
    }
}

pub open spec fn nodes_errors(ns: Seq<CstNodeV>) -> Seq<(SpanInfo, Seq<char>)>
    decreases ns, 0nat,
{
    if ns.len() == 0 {
        Seq::empty()
    } else {
        nodes_errors(ns.drop_last()) + node_errors(ns.last())
    }
}

/// An error diagnostic from the reader for a line it could not read.
pub open spec fn syntax_diagnostic(e: (SpanInfo, Seq<char>)) -> DiagnosticV {
    DiagnosticV {
        range: span_range(e.0),
        severity: Severity::Error,
        source: "sixu-syntax"@,
        message: e.1,
    }
}

pub open spec fn errors_view(v: Seq<(SpanInfo, String)>) -> Seq<(SpanInfo, Seq<char>)> {
    v.map_values(|e: (SpanInfo, String)| (e.0, e.1@))
}

fn collect_node_errors(n: &CstNode, out: &mut Vec<(SpanInfo, String)>)
    ensures
        errors_view(final(out)@) == errors_view(old(out)@) + node_errors(n@),
    decreases n, 1nat,
{
    let ghost start = errors_view(out@);
    match n {
        CstNode::Error { content: _, span, message } => {
            out.push((*span, message.clone()));
            assert(errors_view(out@) =~= start + node_errors(n@));
        },
        CstNode::Paragraph(p) => {
            assert(decreases_to!(*n => p.block));
            assert(node_errors(n@) == nodes_errors(cst_nodes_view(p.block.children)));
            collect_nodes_errors(&p.block.children, out);
        },
        CstNode::Block(b) => {
            assert(node_errors(n@) == nodes_errors(cst_nodes_view(b.children)));
            collect_nodes_errors(&b.children, out);
        },
        _ => {
            assert(errors_view(out@) =~= start + node_errors(n@));
        },
    }
}

fn collect_nodes_errors(ns: &Vec<CstNode>, out: &mut Vec<(SpanInfo, String)>)
    ensures
        errors_view(final(out)@) == errors_view(old(out)@) + nodes_errors(cst_nodes_view(*ns)),
    decreases ns, 0nat,
{
    let ghost start = errors_view(out@);
    let ghost nv = cst_nodes_view(*ns);
    let mut k: usize = 0;
    assert(start + nodes_errors(nv.take(0)) =~= start);
    while k < ns.len()
        invariant
            0 <= k <= ns@.len(),
            nv == cst_nodes_view(*ns),
            nv.len() == ns@.len(),
            errors_view(out@) == start + nodes_errors(nv.take(k as int)),
        decreases ns.len() - k,
    {
        assert(nv.take(k + 1).drop_last() =~= nv.take(k as int));
        assert(nv.take(k + 1).last() == ns@[k as int]@);
        assert(decreases_to!(*ns => ns@[k as int]));
        collect_node_errors(&ns[k], out);
        k += 1;
        assert(errors_view(out@) =~= start + nodes_errors(nv.take(k as int)));
    }
    assert(nv.take(k as int) =~= nv);
}

/// The lines of a document that the reader could not read, with their
/// messages, inside paragraphs and blocks too, in order.
pub fn syntax_errors(root: &CstRoot) -> (r: Vec<(SpanInfo, String)>)
    ensures
        errors_view(r@) == nodes_errors(root@.nodes),
{
    let mut out: Vec<(SpanInfo, String)> = Vec::new();
    assert(errors_view(out@) =~= Seq::<(SpanInfo, Seq<char>)>::empty());
    collect_nodes_errors(&root.nodes, &mut out);
    assert(errors_view(out@) =~= nodes_errors(root@.nodes));
    out
}


/// What `{:?}` writes for a string: it in double quotes, with quotes,
/// backslashes and unprintable characters escaped.
pub uninterp spec fn debug_str(s: Seq<char>) -> Seq<char>;

/// `<str as Debug>::fmt`, collected into a string.
#[verifier::external_body]
fn debug_str_of(s: &str) -> (r: String)
    ensures
        r@ == debug_str(s@),
{
    format!("{:?}", s)
}

/// What `{:?}` writes for a list of strings: `[` and `]` around the items
/// separated by `, `.
pub open spec fn debug_list(items: Seq<Seq<char>>) -> Seq<char> {
    seq!['['] + debug_items(items) + seq![']']
}

pub open spec fn debug_items(items: Seq<Seq<char>>) -> Seq<char>
    decreases items.len(),
{
    if items.len() == 0 {
        Seq::empty()
    } else if items.len() == 1 {
        debug_str(items[0])
    } else {
        debug_items(items.drop_last()) + ", "@ + debug_str(items.last())
    }
}

fn debug_list_of(items: &Vec<String>) -> (r: String)
    ensures
        r@ == debug_list(texts_view(items@)),
{
    let ghost all = texts_view(items@);
    let mut out = String::new();
    push_char(&mut out, '[');
    let mut i: usize = 0;
    while i < items.len()
        invariant
            0 <= i <= items@.len(),
            all == texts_view(items@),
            out@ == seq!['['] + debug_items(all.take(i as int)),
        decreases items.len() - i,
    {
        if i > 0 {
            push_str(&mut out, ", ");
        }
        let t = debug_str_of(items[i].as_str());
        push_str(&mut out, t.as_str());
        proof {
            reveal_strlit(", ");
            let tk = all.take(i + 1);
            assert(tk.drop_last() =~= all.take(i as int));
            assert(tk.last() == items@[i as int]@);
            if i == 0 {
                assert(all.take(0) =~= Seq::<Seq<char>>::empty());
            }
        }
        i += 1;
    }
    push_char(&mut out, ']');
    assert(all.take(i as int) =~= all);
    out
}

/// The first definition for the command named `name`.
pub open spec fn first_definition(defs: Seq<DefinitionV>, name: Seq<char>) -> Option<DefinitionV>
    decreases defs.len(),
{
    if defs.len() == 0 {
        None
    } else if command_name(defs[0].properties) == Some(name) {
        Some(defs[0])
    } else {
        first_definition(defs.drop_first(), name)
    }
}

pub open spec fn schema_diagnostic(severity: Severity, range: Range, message: Seq<char>) -> DiagnosticV {
    DiagnosticV { range, severity, source: "sixu-schema"@, message }
}

pub open spec fn has_argument(args: Seq<CstArgumentV>, name: Seq<char>) -> bool {
    exists|i: int| 0 <= i < args.len() && (#[trigger] args[i]).name == name
}

pub open spec fn missing_diagnostic(r: Seq<char>, cmd: CstCallV) -> Seq<DiagnosticV> {
    if r == "command"@ || has_argument(cmd.arguments, r) {
        Seq::empty()
    } else {
        seq![schema_diagnostic(Severity::Error, span_range(cmd.name_span), "Missing required parameter: "@ + r)]
    }
}

/// An error for each required property, but `command`, that the command
/// does not give.
pub open spec fn required_diagnostics(required: Seq<Seq<char>>, cmd: CstCallV) -> Seq<DiagnosticV>
    decreases required.len(),
{
    if required.len() == 0 {
        Seq::empty()
    } else {
        let r = required.last();
        required_diagnostics(required.drop_last(), cmd) + missing_diagnostic(r, cmd)
    }
}

pub open spec fn expected_types(t: TypeV) -> Seq<Seq<char>> {
    match t {
        TypeV::One(s) => seq![s],
        TypeV::Many(v) => v,
    }
}

/// Whether a value can have one of the expected types: strings and
/// templates are strings, numbers are numbers or integers, booleans are
/// booleans, a variable can be anything, and an argument without a value
/// is a flag.
pub open spec fn value_fits(value: Option<CstValueV>, expected: Seq<Seq<char>>) -> bool {
    match value {
        None => true,
        Some(v) => match v.kind {
            CstValueKind::String { .. } => expected.contains("string"@),
            CstValueKind::TemplateString => expected.contains("string"@),
            CstValueKind::Integer => expected.contains("number"@) || expected.contains("integer"@),
            CstValueKind::Float => expected.contains("number"@) || expected.contains("integer"@),
            CstValueKind::Boolean => expected.contains("boolean"@),
            CstValueKind::Variable => true,
        },
    }
}

/// A warning for each argument the definition does not know, and for each
/// whose value does not fit the property's type.
pub open spec fn argument_diagnostics(d: DefinitionV, args: Seq<CstArgumentV>) -> Seq<DiagnosticV>
    decreases args.len(),
{
    if args.len() == 0 {
        Seq::empty()
    } else {
        let a = args.last();
        argument_diagnostics(d, args.drop_last()) + one_argument_diagnostics(d, a)
    }
}

pub open spec fn one_argument_diagnostics(d: DefinitionV, a: CstArgumentV) -> Seq<DiagnosticV> {
    {
        match property_get(d.properties, a.name) {
            None => seq![schema_diagnostic(Severity::Warning, span_range(a.span), "Unknown parameter: "@ + a.name)],
            Some(p) => match p.type_ {
                None => Seq::empty(),
                Some(t) => if value_fits(a.value, expected_types(t)) {
                    Seq::empty()
                } else {
                    seq![
                        schema_diagnostic(
                            Severity::Warning,
                            span_range(a.span),
                            "Type mismatch. Expected: "@ + debug_list(expected_types(t)),
                        ),
                    ]
                },
            },
        }
    }
}

/// The schema's diagnostics for a command: unknown commands, missing
/// required properties, unknown arguments and values of the wrong type.
pub open spec fn command_diagnostics(defs: Seq<DefinitionV>, cmd: CstCallV) -> Seq<DiagnosticV> {
    match first_definition(defs, cmd.command) {
        None => seq![schema_diagnostic(Severity::Warning, span_range(cmd.name_span), "Unknown command: "@ + cmd.command)],
        Some(d) => required_of(d, cmd) + argument_diagnostics(d, cmd.arguments),
    }
}

pub open spec fn required_of(d: DefinitionV, cmd: CstCallV) -> Seq<DiagnosticV> {
    match d.required {
        Some(req) => required_diagnostics(req, cmd),
        None => Seq::empty(),
    }
}

pub open spec fn commands_diagnostics(defs: Seq<DefinitionV>, cmds: Seq<CstCallV>) -> Seq<DiagnosticV>
    decreases cmds.len(),
{
    if cmds.len() == 0 {
        Seq::empty()
    } else {
        commands_diagnostics(defs, cmds.drop_last()) + command_diagnostics(defs, cmds.last())
    }
}

/// The diagnostics of a document: an error for each line the reader could
/// not read, then, with a schema, the schema's diagnostics for each command.
pub open spec fn document_diagnostics_spec(nodes: Seq<CstNodeV>, schema: Option<Seq<DefinitionV>>) -> Seq<DiagnosticV> {
    syntax_diagnostics(nodes_errors(nodes)) + schema_part(nodes, schema)
}

pub open spec fn schema_part(nodes: Seq<CstNodeV>, schema: Option<Seq<DefinitionV>>) -> Seq<DiagnosticV> {
    match schema {
        Some(defs) => commands_diagnostics(defs, nodes_commands(nodes)),
        None => Seq::empty(),
    }
}

pub open spec fn syntax_diagnostics(errs: Seq<(SpanInfo, Seq<char>)>) -> Seq<DiagnosticV> {
    errs.map_values(|e: (SpanInfo, Seq<char>)| syntax_diagnostic(e))
}

/// Every span a diagnostic may point at starts and ends on a line from 1.
pub open spec fn diagnostic_spans_ok(nodes: Seq<CstNodeV>) -> bool {
    &&& forall|i: int| 0 <= i < nodes_errors(nodes).len() ==> span_ok(#[trigger] nodes_errors(nodes)[i].0)
    &&& forall|i: int| 0 <= i < nodes_commands(nodes).len() ==> call_spans_ok(#[trigger] nodes_commands(nodes)[i])
}

pub open spec fn call_spans_ok(c: CstCallV) -> bool {
    &&& span_ok(c.name_span)
    &&& forall|j: int| 0 <= j < c.arguments.len() ==> span_ok(#[trigger] c.arguments[j].span)
}

pub(crate) fn find_definition<'a>(schema: &'a CommandSchema, name: &str) -> (r: Option<&'a CommandDefinition>)
    ensures
        match first_definition(schema@, name@) {
            Some(d) => r matches Some(x) && x@ == d,
            None => r is None,
        },
{
    let ghost all = schema@;
    let mut i: usize = 0;
    assert(all.skip(0) =~= all);
    while i < schema.commands.len()
        invariant
            0 <= i <= schema.commands@.len(),
            all == schema@,
            first_definition(all.skip(i as int), name@) == first_definition(all, name@),
        decreases schema.commands.len() - i,
    {
        let ghost rest = all.skip(i as int);
        assert(rest.drop_first() =~= all.skip(i + 1));
        assert(rest[0] == schema.commands@[i as int]@);
        let n = schema.commands[i].get_command_name();
        let same = match &n {
            Some(x) => str_eq(x.as_str(), name),
            None => false,
        };
        if same {
            return Some(&schema.commands[i]);
        }
        i += 1;
    }
    None
}

fn has_argument_exec(args: &Vec<CstArgument>, name: &str) -> (r: bool)
    ensures
        r == has_argument(cst_arguments_view(args@), name@),
{
    let ghost av = cst_arguments_view(args@);
    let mut i: usize = 0;
    while i < args.len()
        invariant
            0 <= i <= args@.len(),
            av == cst_arguments_view(args@),
            forall|j: int| 0 <= j < i ==> (#[trigger] av[j]).name != name@,
        decreases args.len() - i,
    {
        if str_eq(args[i].name.as_str(), name) {
            assert(av[i as int].name == name@);
            return true;
        }
        i += 1;
    }
    false
}

fn contains_str(v: &Vec<String>, x: &str) -> (r: bool)
    ensures
        r == texts_view(v@).contains(x@),
{
    let mut i: usize = 0;
    while i < v.len()
        invariant
            0 <= i <= v@.len(),
            forall|j: int| 0 <= j < i ==> (#[trigger] v@[j])@ != x@,
        decreases v.len() - i,
    {
        if str_eq(v[i].as_str(), x) {
            assert(texts_view(v@)[i as int] == x@);
            assert(texts_view(v@).contains(x@));
            return true;
        }
        i += 1;
    }
    assert(!texts_view(v@).contains(x@)) by {
        if texts_view(v@).contains(x@) {
            let k = choose|k: int| 0 <= k < texts_view(v@).len() && texts_view(v@)[k] == x@;
            assert(v@[k]@ == x@);
        }
    }
    false
}

fn concat_string(a: &str, b: &str) -> (r: String)
    ensures
        r@ == a@ + b@,
{
    let mut s = String::new();
    push_str(&mut s, a);
    push_str(&mut s, b);
    assert(s@ =~= a@ + b@);
    s
}

fn push_command_diagnostics(schema: &CommandSchema, cmd: &CstCommand, out: &mut Vec<Diagnostic>)
    requires
        call_spans_ok(cmd@),
    ensures
        diagnostics_view(final(out)@) == diagnostics_view(old(out)@) + command_diagnostics(schema@, cmd@),
{
    let ghost start = diagnostics_view(out@);
    match find_definition(schema, cmd.command.as_str()) {
        None => {
            out.push(Diagnostic {
                range: span_to_range(&cmd.name_span),
                severity: Severity::Warning,
                source: "sixu-schema".to_owned(),
                message: concat_string("Unknown command: ", cmd.command.as_str()),
            });
            assert(diagnostics_view(out@) =~= start + command_diagnostics(schema@, cmd@));
        },
        Some(def) => {
            let ghost d = def@;
            let ghost args = cmd@.arguments;
            match &def.required {
                Some(req) => {
                    let ghost rv = texts_view(req@);
                    let mut i: usize = 0;
                    while i < req.len()
                        invariant
                            0 <= i <= req@.len(),
                            rv == texts_view(req@),
                            call_spans_ok(cmd@),
                            diagnostics_view(out@) == start + required_diagnostics(rv.take(i as int), cmd@),
                        decreases req.len() - i,
                    {
                        let ghost before = diagnostics_view(out@);
                        proof {
                            assert(rv.take(i + 1).drop_last() =~= rv.take(i as int));
                            assert(rv.take(i + 1).last() == req@[i as int]@);
                        }
                        let r = req[i].as_str();
                        assert(cmd@.arguments == cst_arguments_view(cmd.arguments@));
                        if !str_eq(r, "command") && !has_argument_exec(&cmd.arguments, r) {
                            out.push(Diagnostic {
                                range: span_to_range(&cmd.name_span),
                                severity: Severity::Error,
                                source: "sixu-schema".to_owned(),
                                message: concat_string("Missing required parameter: ", r),
                            });
                        }
                        proof {
                            let m = missing_diagnostic(req@[i as int]@, cmd@);
                            if m.len() > 0 {
                                assert(out@.last()@ == m[0]);
                                assert(diagnostics_view(out@) =~= before.push(m[0]));
                            } else {
                                assert(diagnostics_view(out@) =~= before);
                            }
                            assert(required_diagnostics(rv.take(i + 1), cmd@) == required_diagnostics(rv.take(i as int), cmd@) + m);
                        }
                        i += 1;
                        assert(diagnostics_view(out@) =~= start + required_diagnostics(rv.take(i as int), cmd@));
                    }
                    assert(rv.take(i as int) =~= rv);
                },
                None => {
                    assert(diagnostics_view(out@) =~= start + Seq::<DiagnosticV>::empty());
                },
            }
            let ghost mid = diagnostics_view(out@);
            let mut k: usize = 0;
            assert(argument_diagnostics(d, args.take(0)) =~= Seq::<DiagnosticV>::empty()) by {
                assert(args.take(0).len() == 0);
            }
            while k < cmd.arguments.len()
                invariant
                    0 <= k <= cmd.arguments@.len(),
                    args == cmd@.arguments,
                    args.len() == cmd.arguments@.len(),
                    d == def@,
                    call_spans_ok(cmd@),
                    diagnostics_view(out@) == mid + argument_diagnostics(d, args.take(k as int)),
                decreases cmd.arguments.len() - k,
            {
                let a = &cmd.arguments[k];
                let ghost before_arg = diagnostics_view(out@);
                proof {
                    assert(args.take(k + 1).drop_last() =~= args.take(k as int));
                    assert(args.take(k + 1).last() == a@);
                    assert(args[k as int] == a@);
                    assert(span_ok(args[k as int].span));
                }
                match def.properties.get(a.name.as_str()) {
                    None => {
                        out.push(Diagnostic {
                            range: span_to_range(&a.span),
                            severity: Severity::Warning,
                            source: "sixu-schema".to_owned(),
                            message: concat_string("Unknown parameter: ", a.name.as_str()),
                        });
                    },
                    Some(p) => match &p.type_ {
                        None => {},
                        Some(t) => {
                            let expected: Vec<String> = match t {
                                StringOrArray::String(x) => {
                                    let mut v: Vec<String> = Vec::new();
                                    v.push(x.clone());
                                    assert(texts_view(v@) =~= seq![x@]);
                                    v
                                },
                                StringOrArray::Array(xs) => xs.clone(),
                            };
                            assert(texts_view(expected@) == expected_types(t@));
                            let fits = match &a.value {
                                None => true,
                                Some(v) => match v.kind {
                                    CstValueKind::String { .. } => contains_str(&expected, "string"),
                                    CstValueKind::TemplateString => contains_str(&expected, "string"),
                                    CstValueKind::Integer => contains_str(&expected, "number")
                                        || contains_str(&expected, "integer"),
                                    CstValueKind::Float => contains_str(&expected, "number")
                                        || contains_str(&expected, "integer"),
                                    CstValueKind::Boolean => contains_str(&expected, "boolean"),
                                    CstValueKind::Variable => true,
                                },
                            };
                            if !fits {
                                let listed = debug_list_of(&expected);
                                out.push(Diagnostic {
                                    range: span_to_range(&a.span),
                                    severity: Severity::Warning,
                                    source: "sixu-schema".to_owned(),
                                    message: concat_string("Type mismatch. Expected: ", listed.as_str()),
                                });
                            }
                        },
                    },
                }
                proof {
                    let m = one_argument_diagnostics(d, a@);
                    assert(argument_diagnostics(d, args.take(k + 1)) == argument_diagnostics(d, args.take(k as int)) + m);
                    if m.len() > 0 {
                        assert(out@.last()@ == m[0]);
                        assert(diagnostics_view(out@) =~= before_arg.push(m[0]));
                    } else {
                        assert(diagnostics_view(out@) =~= before_arg);
                    }
                }
                k += 1;
                assert(diagnostics_view(out@) =~= mid + argument_diagnostics(d, args.take(k as int)));
            }
            assert(args.take(k as int) =~= args);
            assert(diagnostics_view(out@) =~= start + command_diagnostics(schema@, cmd@));
        },
    }
}

/// The diagnostics of a document (see `document_diagnostics_spec`), or
/// `None` when a span it would point at has a line 0.
pub fn document_diagnostics(root: &CstRoot, schema: Option<&CommandSchema>) -> (r: Option<Vec<Diagnostic>>)
    ensures
        match r {
            Some(v) => diagnostic_spans_ok(root@.nodes) && diagnostics_view(v@) == document_diagnostics_spec(
                root@.nodes,
                match schema {
                    Some(s) => Some(s@),
                    None => None,
                },
            ),
            None => !diagnostic_spans_ok(root@.nodes),
        },
{
    let ghost nodes = root@.nodes;
    let errors = syntax_errors(root);
    let commands = extract_commands(root);
    let ghost cv = commands@.map_values(|c: &CstCommand| c@);
    let mut i: usize = 0;
    while i < errors.len()
        invariant
            0 <= i <= errors@.len(),
            nodes == root@.nodes,
            errors_view(errors@) == nodes_errors(nodes),
            forall|j: int| 0 <= j < i ==> span_ok(#[trigger] nodes_errors(nodes)[j].0),
        decreases errors.len() - i,
    {
        assert(nodes_errors(nodes)[i as int].0 == errors@[i as int].0);
        if errors[i].0.start_line < 1 || errors[i].0.end_line < 1 {
            assert(!span_ok(nodes_errors(nodes)[i as int].0));
            return None;
        }
        i += 1;
    }
    let mut k: usize = 0;
    while k < commands.len()
        invariant
            0 <= k <= commands@.len(),
            nodes == root@.nodes,
            cv == commands@.map_values(|c: &CstCommand| c@),
            cv == nodes_commands(nodes),
            forall|j: int| 0 <= j < nodes_errors(nodes).len() ==> span_ok(#[trigger] nodes_errors(nodes)[j].0),
            forall|j: int| 0 <= j < k ==> call_spans_ok(#[trigger] nodes_commands(nodes)[j]),
        decreases commands.len() - k,
    {
        let c = commands[k];
        assert(nodes_commands(nodes)[k as int] == c@);
        if c.name_span.start_line < 1 || c.name_span.end_line < 1 {
            assert(!call_spans_ok(nodes_commands(nodes)[k as int]));
            return None;
        }
        let mut j: usize = 0;
        while j < c.arguments.len()
            invariant
                0 <= j <= c.arguments@.len(),
                c@.arguments.len() == c.arguments@.len(),
                k < nodes_commands(nodes).len(),
                nodes == root@.nodes,
                nodes_commands(nodes)[k as int] == c@,
                span_ok(c@.name_span),
                forall|m: int| 0 <= m < j ==> span_ok(#[trigger] c@.arguments[m].span),
            decreases c.arguments.len() - j,
        {
            assert(c@.arguments[j as int] == c.arguments@[j as int]@);
            if c.arguments[j].span.start_line < 1 || c.arguments[j].span.end_line < 1 {
                assert(!span_ok(c@.arguments[j as int].span));
                assert(!call_spans_ok(nodes_commands(nodes)[k as int]));
                return None;
            }
            j += 1;
        }
        k += 1;
    }
    let mut out: Vec<Diagnostic> = Vec::new();
    let mut e: usize = 0;
    while e < errors.len()
        invariant
            0 <= e <= errors@.len(),
            nodes == root@.nodes,
            diagnostic_spans_ok(nodes),
            cv == commands@.map_values(|c: &CstCommand| c@),
            cv == nodes_commands(nodes),
            errors_view(errors@) == nodes_errors(nodes),
            forall|j: int| 0 <= j < nodes_errors(nodes).len() ==> span_ok(#[trigger] nodes_errors(nodes)[j].0),
            diagnostics_view(out@) == syntax_diagnostics(nodes_errors(nodes).take(e as int)),
        decreases errors.len() - e,
    {
        let ghost before = diagnostics_view(out@);
        assert(nodes_errors(nodes)[e as int] == (errors@[e as int].0, errors@[e as int].1@));
        assert(span_ok(nodes_errors(nodes)[e as int].0));
        let range = span_to_range(&errors[e].0);
        out.push(Diagnostic {
            range,
            severity: Severity::Error,
            source: "sixu-syntax".to_owned(),
            message: errors[e].1.clone(),
        });
        assert(out@.last()@ == syntax_diagnostic(nodes_errors(nodes)[e as int]));
        assert(diagnostics_view(out@) =~= before.push(out@.last()@));
        assert(syntax_diagnostics(nodes_errors(nodes).take(e + 1)) =~= syntax_diagnostics(
            nodes_errors(nodes).take(e as int),
        ).push(syntax_diagnostic(nodes_errors(nodes)[e as int])));
        e += 1;
    }
    assert(nodes_errors(nodes).take(e as int) =~= nodes_errors(nodes));
    assert(diagnostics_view(out@) == syntax_diagnostics(nodes_errors(nodes)));
    match schema {
        Some(sc) => {
            let ghost mid = diagnostics_view(out@);
            let mut k: usize = 0;
            assert(commands_diagnostics(sc@, cv.take(0)) =~= Seq::<DiagnosticV>::empty()) by {
                assert(cv.take(0).len() == 0);
            }
            while k < commands.len()
                invariant
                    0 <= k <= commands@.len(),
                    cv == commands@.map_values(|c: &CstCommand| c@),
                    cv == nodes_commands(nodes),
                    forall|j: int| 0 <= j < cv.len() ==> call_spans_ok(#[trigger] nodes_commands(nodes)[j]),
                    diagnostics_view(out@) == mid + commands_diagnostics(sc@, cv.take(k as int)),
                decreases commands.len() - k,
            {
                assert(cv.take(k + 1).drop_last() =~= cv.take(k as int));
                assert(cv.take(k + 1).last() == commands@[k as int]@);
                assert(call_spans_ok(nodes_commands(nodes)[k as int]));
                push_command_diagnostics(sc, commands[k], &mut out);
                k += 1;
            }
            assert(cv.take(k as int) =~= cv);
        },
        None => {
            assert(diagnostics_view(out@) =~= diagnostics_view(out@) + Seq::<DiagnosticV>::empty());
        },
    }
    Some(out)
}


// ---------------------------------------------------------------------
// Spans the answers point at
// ---------------------------------------------------------------------

pub open spec fn calls_spans_ok(calls: Seq<CstCallV>) -> bool {
    forall|i: int| 0 <= i < calls.len() ==> span_ok((#[trigger] calls[i]).span) && call_spans_ok(calls[i])
}

pub open spec fn paragraphs_spans_ok(ps: Seq<CstParagraphV>) -> bool {
    forall|i: int| 0 <= i < ps.len() ==> span_ok((#[trigger] ps[i]).span) && span_ok(ps[i].name_span)
}

/// Every span an answer of the server may point at starts and ends on a
/// line from 1.
pub open spec fn lsp_spans_ok(nodes: Seq<CstNodeV>) -> bool {
    &&& diagnostic_spans_ok(nodes)
    &&& calls_spans_ok(nodes_commands(nodes))
    &&& calls_spans_ok(nodes_system_calls(nodes))
    &&& paragraphs_spans_ok(nodes_paragraphs(nodes))
}

fn call_spans_ok_exec(span: &SpanInfo, name_span: &SpanInfo, args: &Vec<CstArgument>) -> (r: bool)
    ensures
        r == (span_ok(*span) && span_ok(*name_span) && forall|j: int|
            0 <= j < args@.len() ==> span_ok(#[trigger] cst_arguments_view(args@)[j].span)),
{
    if span.start_line < 1 || span.end_line < 1 || name_span.start_line < 1 || name_span.end_line < 1 {
        return false;
    }
    let mut j: usize = 0;
    while j < args.len()
        invariant
            0 <= j <= args@.len(),
            forall|m: int| 0 <= m < j ==> span_ok(#[trigger] cst_arguments_view(args@)[m].span),
        decreases args.len() - j,
    {
        assert(cst_arguments_view(args@)[j as int] == args@[j as int]@);
        if args[j].span.start_line < 1 || args[j].span.end_line < 1 {
            assert(!span_ok(cst_arguments_view(args@)[j as int].span));
            return false;
        }
        j += 1;
    }
    true
}

/// Whether every span an answer may point at starts and ends on a line
/// from 1 (see `lsp_spans_ok`).
pub fn spans_ok(root: &CstRoot) -> (r: bool)
    ensures
        r == lsp_spans_ok(root@.nodes),
{
    let ghost nodes = root@.nodes;
    if document_diagnostics(root, None).is_none() {
        return false;
    }
    let commands = extract_commands(root);
    let ghost cv = commands@.map_values(|c: &CstCommand| c@);
    let mut k: usize = 0;
    while k < commands.len()
        invariant
            0 <= k <= commands@.len(),
            cv == commands@.map_values(|c: &CstCommand| c@),
            cv == nodes_commands(nodes),
            nodes == root@.nodes,
            diagnostic_spans_ok(nodes),
            forall|i: int| 0 <= i < k ==> span_ok((#[trigger] cv[i]).span) && call_spans_ok(cv[i]),
        decreases commands.len() - k,
    {
        let c = commands[k];
        assert(cv[k as int] == c@);
        if !call_spans_ok_exec(&c.span, &c.name_span, &c.arguments) {
            assert(!(span_ok(cv[k as int].span) && call_spans_ok(cv[k as int])));
            return false;
        }
        assert(span_ok(cv[k as int].span) && call_spans_ok(cv[k as int]));
        k += 1;
    }
    let calls = extract_system_calls(root);
    let ghost sv = calls@.map_values(|c: &CstSystemCall| c@);
    let mut k: usize = 0;
    while k < calls.len()
        invariant
            0 <= k <= calls@.len(),
            sv == calls@.map_values(|c: &CstSystemCall| c@),
            sv == crate::cst_helper::nodes_system_calls(nodes),
            calls_spans_ok(nodes_commands(nodes)),
            nodes == root@.nodes,
            diagnostic_spans_ok(nodes),
            forall|i: int| 0 <= i < k ==> span_ok((#[trigger] sv[i]).span) && call_spans_ok(sv[i]),
        decreases calls.len() - k,
    {
        let c = calls[k];
        assert(sv[k as int] == c@);
        if !call_spans_ok_exec(&c.span, &c.name_span, &c.arguments) {
            assert(!(span_ok(sv[k as int].span) && call_spans_ok(sv[k as int])));
            return false;
        }
        assert(span_ok(sv[k as int].span) && call_spans_ok(sv[k as int]));
        k += 1;
    }
    let paragraphs = extract_paragraphs(root);
    let ghost pv = paragraphs@.map_values(|p: &CstParagraph| cst_paragraph_view(*p));
    let mut k: usize = 0;
    while k < paragraphs.len()
        invariant
            0 <= k <= paragraphs@.len(),
            pv == paragraphs@.map_values(|p: &CstParagraph| cst_paragraph_view(*p)),
            pv == nodes_paragraphs(nodes),
            nodes == root@.nodes,
            diagnostic_spans_ok(nodes),
            calls_spans_ok(nodes_commands(nodes)),
            calls_spans_ok(nodes_system_calls(nodes)),
            forall|i: int| 0 <= i < k ==> span_ok((#[trigger] pv[i]).span) && span_ok(pv[i].name_span),
        decreases paragraphs.len() - k,
    {
        let p = paragraphs[k];
        assert(pv[k as int] == cst_paragraph_view(*p));
        if p.span.start_line < 1 || p.span.end_line < 1 || p.name_span.start_line < 1
            || p.name_span.end_line < 1 {
            assert(!(span_ok(pv[k as int].span) && span_ok(pv[k as int].name_span)));
            return false;
        }
        k += 1;
    }
    true
}

// ---------------------------------------------------------------------
// Hover
// ---------------------------------------------------------------------

/// A text to show for a range.
pub struct HoverInfo {
    pub text: String,
    pub range: Range,
}

pub open spec fn text_or_empty(o: Option<Seq<char>>) -> Seq<char> {
    match o {
        Some(t) => t,
        None => Seq::empty(),
    }
}

/// The description of the property of the first argument under the
/// cursor that the definition knows.
pub open spec fn argument_hover(d: DefinitionV, args: Seq<CstArgumentV>, pos: Position) -> Option<(Seq<char>, Range)>
    decreases args.len(),
{
    if args.len() == 0 {
        None
    } else if range_contains(span_range(args[0].span), pos) && property_get(d.properties, args[0].name) is Some {
        Some((text_or_empty(property_get(d.properties, args[0].name)->0.description), span_range(args[0].span)))
    } else {
        argument_hover(d, args.drop_first(), pos)
    }
}

/// What to show at the cursor: for the first command under it that the
/// schema defines, the command's description on its name, or the
/// property's on an argument; nothing without a schema.
pub open spec fn hover_spec(cmds: Seq<CstCallV>, schema: Option<Seq<DefinitionV>>, pos: Position) -> Option<(Seq<char>, Range)>
    decreases cmds.len(),
{
    if cmds.len() == 0 {
        None
    } else {
        let cmd = cmds[0];
        if range_contains(span_range(cmd.span), pos) {
            match schema {
                None => None,
                Some(defs) => match first_definition(defs, cmd.command) {
                    Some(d) => if range_contains(span_range(cmd.name_span), pos) {
                        Some((text_or_empty(d.description), span_range(cmd.name_span)))
                    } else {
                        match argument_hover(d, cmd.arguments, pos) {
                            Some(x) => Some(x),
                            None => hover_spec(cmds.drop_first(), schema, pos),
                        }
                    },
                    None => hover_spec(cmds.drop_first(), schema, pos),
                },
            }
        } else {
            hover_spec(cmds.drop_first(), schema, pos)
        }
    }
}

fn text_or_empty_exec(o: &Option<String>) -> (r: String)
    ensures
        r@ == text_or_empty(opt_text(*o)),
{
    match o {
        Some(t) => t.clone(),
        None => String::new(),
    }
}

fn argument_hover_exec(d: &CommandDefinition, args: &Vec<CstArgument>, pos: &Position) -> (r: Option<HoverInfo>)
    requires
        forall|j: int| 0 <= j < args@.len() ==> span_ok(#[trigger] cst_arguments_view(args@)[j].span),
    ensures
        match argument_hover(d@, cst_arguments_view(args@), *pos) {
            Some((t, rg)) => r matches Some(h) && h.text@ == t && h.range == rg,
            None => r is None,
        },
{
    let ghost av = cst_arguments_view(args@);
    let mut j: usize = 0;
    assert(av.skip(0) =~= av);
    while j < args.len()
        invariant
            0 <= j <= args@.len(),
            av == cst_arguments_view(args@),
            forall|m: int| 0 <= m < args@.len() ==> span_ok(#[trigger] av[m].span),
            argument_hover(d@, av.skip(j as int), *pos) == argument_hover(d@, av, *pos),
        decreases args.len() - j,
    {
        let ghost rest = av.skip(j as int);
        assert(rest.drop_first() =~= av.skip(j + 1));
        assert(rest[0] == args@[j as int]@);
        assert(span_ok(av[j as int].span));
        let range = span_to_range(&args[j].span);
        if contains(&range, pos) {
            match d.properties.get(args[j].name.as_str()) {
                Some(p) => {
                    return Some(HoverInfo { text: text_or_empty_exec(&p.description), range });
                },
                None => {},
            }
        }
        j += 1;
    }
    None
}

/// What to show at the cursor (see `hover_spec`).
pub fn hover(root: &CstRoot, schema: Option<&CommandSchema>, pos: &Position) -> (r: Option<HoverInfo>)
    requires
        lsp_spans_ok(root@.nodes),
    ensures
        match hover_spec(
            nodes_commands(root@.nodes),
            match schema {
                Some(s) => Some(s@),
                None => None,
            },
            *pos,
        ) {
            Some((t, rg)) => r matches Some(h) && h.text@ == t && h.range == rg,
            None => r is None,
        },
{
    let ghost sv = match schema {
        Some(s) => Some(s@),
        None => None,
    };
    let commands = extract_commands(root);
    let ghost cv = commands@.map_values(|c: &CstCommand| c@);
    let mut k: usize = 0;
    assert(cv.skip(0) =~= cv);
    while k < commands.len()
        invariant
            0 <= k <= commands@.len(),
            cv == commands@.map_values(|c: &CstCommand| c@),
            cv == nodes_commands(root@.nodes),
            calls_spans_ok(cv),
            sv == match schema {
                Some(s) => Some(s@),
                None => None::<Seq<DefinitionV>>,
            },
            hover_spec(cv.skip(k as int), sv, *pos) == hover_spec(cv, sv, *pos),
        decreases commands.len() - k,
    {
        let ghost rest = cv.skip(k as int);
        assert(rest.drop_first() =~= cv.skip(k + 1));
        let c = commands[k];
        assert(rest[0] == c@);
        assert(span_ok(cv[k as int].span) && call_spans_ok(cv[k as int]));
        let range = span_to_range(&c.span);
        if contains(&range, pos) {
            match schema {
                None => {
                    return None;
                },
                Some(sc) => match find_definition(sc, c.command.as_str()) {
                    Some(def) => {
                        let name_range = span_to_range(&c.name_span);
                        if contains(&name_range, pos) {
                            return Some(HoverInfo { text: text_or_empty_exec(&def.description), range: name_range });
                        }
                        match argument_hover_exec(def, &c.arguments, pos) {
                            Some(h) => {
                                return Some(h);
                            },
                            None => {},
                        }
                    },
                    None => {},
                },
            }
        }
        k += 1;
    }
    None
}

// ---------------------------------------------------------------------
// Jumps to paragraphs
// ---------------------------------------------------------------------

/// Where a jump under the cursor may lead: a story (none for the current
/// document), a paragraph name (empty when not given), and whether the
/// cursor is on the story's value.
pub struct GotoCandidate {
    pub story: Option<String>,
    pub paragraph: String,
    pub on_story: bool,
}

pub struct GotoCandidateV {
    pub story: Option<Seq<char>>,
    pub paragraph: Seq<char>,
    pub on_story: bool,
}

impl View for GotoCandidate {
    type V = GotoCandidateV;

    open spec fn view(&self) -> GotoCandidateV {
        GotoCandidateV { story: opt_text(self.story), paragraph: self.paragraph@, on_story: self.on_story }
    }
}

/// The first argument with the given name, whether it has a value or not.
pub open spec fn first_named(args: Seq<CstArgumentV>, name: Seq<char>) -> Option<CstArgumentV>
    decreases args.len(),
{
    if args.len() == 0 {
        None
    } else if args[0].name == name {
        Some(args[0])
    } else {
        first_named(args.drop_first(), name)
    }
}

/// Whether the cursor is on the value of the first argument named `name`.
pub open spec fn on_value(args: Seq<CstArgumentV>, name: Seq<char>, pos: Position) -> bool {
    match first_named(args, name) {
        Some(a) => match a.value {
            Some(v) => range_contains(span_range(v.span), pos),
            None => false,
        },
        None => false,
    }
}

pub open spec fn is_jump(cmd: Seq<char>) -> bool {
    cmd == "goto"@ || cmd == "call"@ || cmd == "replace"@
}

/// The candidate a system call gives, when it is a jump under the cursor
/// and the cursor is on its story or paragraph value.
pub open spec fn call_candidate(call: CstCallV, pos: Position) -> Option<GotoCandidateV> {
    if range_contains(span_range(call.span), pos) && is_jump(call.command) && (on_value(
        call.arguments,
        "story"@,
        pos,
    ) || on_value(call.arguments, "paragraph"@, pos)) {
        Some(
            GotoCandidateV {
                story: crate::cst_helper::argument_value(call.arguments, "story"@),
                paragraph: text_or_empty(crate::cst_helper::argument_value(call.arguments, "paragraph"@)),
                on_story: on_value(call.arguments, "story"@, pos),
            },
        )
    } else {
        None
    }
}

pub open spec fn goto_candidates_spec(calls: Seq<CstCallV>, pos: Position) -> Seq<GotoCandidateV>
    decreases calls.len(),
{
    if calls.len() == 0 {
        Seq::empty()
    } else {
        goto_candidates_spec(calls.drop_last(), pos) + match call_candidate(calls.last(), pos) {
            Some(c) => seq![c],
            None => Seq::empty(),
        }
    }
}

/// The values of `story` and `paragraph` that a jump would read are not
/// lone quotes.
pub open spec fn jump_values_ok(calls: Seq<CstCallV>, pos: Position) -> bool {
    forall|i: int, j: int|
        0 <= i < calls.len() && 0 <= j < calls[i].arguments.len() && range_contains(span_range(calls[i].span), pos)
            && is_jump(calls[i].command) && (#[trigger] calls[i].arguments[j]).value is Some && (
        calls[i].arguments[j].name == "story"@ || calls[i].arguments[j].name == "paragraph"@)
            ==> !crate::cst_helper::lone_quote(calls[i].arguments[j].value->0)
}

fn on_value_exec(args: &Vec<CstArgument>, name: &str, pos: &Position) -> (r: bool)
    requires
        forall|j: int| 0 <= j < args@.len() ==> (#[trigger] cst_arguments_view(args@)[j]).value is Some
            ==> span_ok(cst_arguments_view(args@)[j].value->0.span),
    ensures
        r == on_value(cst_arguments_view(args@), name@, *pos),
{
    let ghost av = cst_arguments_view(args@);
    let mut j: usize = 0;
    assert(av.skip(0) =~= av);
    while j < args.len()
        invariant
            0 <= j <= args@.len(),
            av == cst_arguments_view(args@),
            forall|m: int| 0 <= m < args@.len() ==> (#[trigger] av[m]).value is Some ==> span_ok(av[m].value->0.span),
            first_named(av.skip(j as int), name@) == first_named(av, name@),
        decreases args.len() - j,
    {
        let ghost rest = av.skip(j as int);
        assert(rest.drop_first() =~= av.skip(j + 1));
        assert(rest[0] == args@[j as int]@);
        if str_eq(args[j].name.as_str(), name) {
            return match &args[j].value {
                Some(v) => {
                    assert(av[j as int].value is Some);
                    let range = span_to_range(&v.span);
                    contains(&range, pos)
                },
                None => false,
            };
        }
        j += 1;
    }
    false
}

pub open spec fn value_spans_ok(calls: Seq<CstCallV>) -> bool {
    forall|i: int, j: int|
        0 <= i < calls.len() && 0 <= j < calls[i].arguments.len() && (#[trigger] calls[i].arguments[j]).value is Some
            ==> span_ok(calls[i].arguments[j].value->0.span)
}

/// The jumps under the cursor, in order, with what they name (see
/// `call_candidate`). The caller reads each target in turn and asks
/// `find_goto_paragraph` for the paragraph.
pub fn goto_candidates(root: &CstRoot, pos: &Position) -> (r: Vec<GotoCandidate>)
    requires
        lsp_spans_ok(root@.nodes),
        value_spans_ok(crate::cst_helper::nodes_system_calls(root@.nodes)),
        jump_values_ok(crate::cst_helper::nodes_system_calls(root@.nodes), *pos),
    ensures
        r@.map_values(|c: GotoCandidate| c@) == goto_candidates_spec(
            crate::cst_helper::nodes_system_calls(root@.nodes),
            *pos,
        ),
{
    let calls = extract_system_calls(root);
    let ghost sv = calls@.map_values(|c: &CstSystemCall| c@);
    let mut out: Vec<GotoCandidate> = Vec::new();
    let mut k: usize = 0;
    assert(out@.map_values(|c: GotoCandidate| c@) =~= goto_candidates_spec(sv.take(0), *pos));
    while k < calls.len()
        invariant
            0 <= k <= calls@.len(),
            sv == calls@.map_values(|c: &CstSystemCall| c@),
            sv == crate::cst_helper::nodes_system_calls(root@.nodes),
            calls_spans_ok(sv),
            value_spans_ok(sv),
            jump_values_ok(sv, *pos),
            out@.map_values(|c: GotoCandidate| c@) == goto_candidates_spec(sv.take(k as int), *pos),
        decreases calls.len() - k,
    {
        let ghost before = out@.map_values(|c: GotoCandidate| c@);
        let c = calls[k];
        proof {
            assert(sv.take(k + 1).drop_last() =~= sv.take(k as int));
            assert(sv.take(k + 1).last() == c@);
            assert(sv[k as int] == c@);
            assert(span_ok(sv[k as int].span));
            assert forall|j: int| 0 <= j < c.arguments@.len() && (#[trigger] cst_arguments_view(
                c.arguments@,
            )[j]).value is Some implies span_ok(cst_arguments_view(c.arguments@)[j].value->0.span) by {
                assert(sv[k as int].arguments[j] == cst_arguments_view(c.arguments@)[j]);
            }
        }
        let range = span_to_range(&c.span);
        let cmd = c.command.as_str();
        if contains(&range, pos) && (str_eq(cmd, "goto") || str_eq(cmd, "call") || str_eq(cmd, "replace")) {
            let on_story = on_value_exec(&c.arguments, "story", pos);
            let on_para = on_value_exec(&c.arguments, "paragraph", pos);
            if on_story || on_para {
                proof {
                    assert forall|i: int|
                        0 <= i < c@.arguments.len() && (#[trigger] c@.arguments[i]).name == "story"@
                            && c@.arguments[i].value is Some implies !crate::cst_helper::lone_quote(
                        c@.arguments[i].value->0,
                    ) by {
                        assert(sv[k as int].arguments[i] == c@.arguments[i]);
                    }
                    assert forall|i: int|
                        0 <= i < c@.arguments.len() && (#[trigger] c@.arguments[i]).name == "paragraph"@
                            && c@.arguments[i].value is Some implies !crate::cst_helper::lone_quote(
                        c@.arguments[i].value->0,
                    ) by {
                        assert(sv[k as int].arguments[i] == c@.arguments[i]);
                    }
                }
                let story = crate::cst_helper::get_systemcall_argument_value(c, "story");
                let paragraph = match crate::cst_helper::get_systemcall_argument_value(c, "paragraph") {
                    Some(p) => p,
                    None => String::new(),
                };
                out.push(GotoCandidate { story, paragraph, on_story });
                assert(out@.map_values(|c: GotoCandidate| c@) =~= before.push(out@.last()@));
            }
        }
        k += 1;
        assert(out@.map_values(|c: GotoCandidate| c@) =~= goto_candidates_spec(sv.take(k as int), *pos));
    }
    assert(sv.take(k as int) =~= sv);
    out
}

/// The first paragraph a candidate leads to: the first of the document
/// when no paragraph is named or the cursor is on the story, else the
/// first with the paragraph's name.
pub open spec fn goto_paragraph_index(ps: Seq<CstParagraphV>, c: GotoCandidateV) -> Option<int>
    decreases ps.len(),
{
    if ps.len() == 0 {
        None
    } else if c.paragraph.len() == 0 || c.on_story || ps[0].name == c.paragraph {
        Some(0)
    } else {
        match goto_paragraph_index(ps.drop_first(), c) {
            Some(i) => Some(i + 1),
            None => None,
        }
    }
}

/// The range of the name of the paragraph a candidate leads to in a
/// document (see `goto_paragraph_index`).
pub fn find_goto_paragraph(root: &CstRoot, candidate: &GotoCandidate) -> (r: Option<Range>)
    requires
        lsp_spans_ok(root@.nodes),
    ensures
        match goto_paragraph_index(nodes_paragraphs(root@.nodes), candidate@) {
            Some(i) => r == Some(span_range(nodes_paragraphs(root@.nodes)[i].name_span)),
            None => r is None,
        },
{
    let paragraphs = extract_paragraphs(root);
    let ghost pv = paragraphs@.map_values(|p: &CstParagraph| cst_paragraph_view(*p));
    let mut k: usize = 0;
    assert(pv.skip(0) =~= pv);
    while k < paragraphs.len()
        invariant
            0 <= k <= paragraphs@.len(),
            pv == paragraphs@.map_values(|p: &CstParagraph| cst_paragraph_view(*p)),
            pv == nodes_paragraphs(root@.nodes),
            paragraphs_spans_ok(pv),
            forall|m: int| 0 <= m < k ==> #[trigger] pv[m].name != candidate@.paragraph,
            candidate@.paragraph.len() > 0 && !candidate@.on_story || k == 0,
            match goto_paragraph_index(pv.skip(k as int), candidate@) {
                Some(i) => goto_paragraph_index(pv, candidate@) == Some(i + k),
                None => goto_paragraph_index(pv, candidate@) is None,
            },
        decreases paragraphs.len() - k,
    {
        let ghost rest = pv.skip(k as int);
        assert(rest.drop_first() =~= pv.skip(k + 1));
        let p = paragraphs[k];
        assert(rest[0] == cst_paragraph_view(*p));
        if candidate.paragraph.as_str().unicode_len() == 0 || candidate.on_story || str_eq(p.name.as_str(), candidate.paragraph.as_str()) {
            assert(span_ok(pv[k as int].name_span));
            return Some(span_to_range(&p.name_span));
        }
        k += 1;
    }
    None
}

// ---------------------------------------------------------------------
// Outline
// ---------------------------------------------------------------------

/// A paragraph of the outline: its name, its range and its name's range.
pub struct Symbol {
    pub name: String,
    pub range: Range,
    pub selection_range: Range,
}

/// The outline of a document: its paragraphs, in order.
pub fn document_symbols(root: &CstRoot) -> (r: Vec<Symbol>)
    requires
        lsp_spans_ok(root@.nodes),
    ensures
        r@.len() == nodes_paragraphs(root@.nodes).len(),
        forall|i: int|
            0 <= i < r@.len() ==> {
                let p = #[trigger] nodes_paragraphs(root@.nodes)[i];
                &&& r@[i].name@ == p.name
                &&& r@[i].range == span_range(p.span)
                &&& r@[i].selection_range == span_range(p.name_span)
            },
{
    let paragraphs = extract_paragraphs(root);
    let ghost pv = paragraphs@.map_values(|p: &CstParagraph| cst_paragraph_view(*p));
    let mut out: Vec<Symbol> = Vec::new();
    let mut k: usize = 0;
    while k < paragraphs.len()
        invariant
            0 <= k <= paragraphs@.len(),
            pv == paragraphs@.map_values(|p: &CstParagraph| cst_paragraph_view(*p)),
            pv == nodes_paragraphs(root@.nodes),
            paragraphs_spans_ok(pv),
            out@.len() == k,
            forall|i: int|
                0 <= i < k ==> {
                    let p = #[trigger] pv[i];
                    &&& out@[i].name@ == p.name
                    &&& out@[i].range == span_range(p.span)
                    &&& out@[i].selection_range == span_range(p.name_span)
                },
        decreases paragraphs.len() - k,
    {
        let p = paragraphs[k];
        assert(pv[k as int] == cst_paragraph_view(*p));
        assert(span_ok(pv[k as int].span) && span_ok(pv[k as int].name_span));
        out.push(Symbol {
            name: p.name.clone(),
            range: span_to_range(&p.span),
            selection_range: span_to_range(&p.name_span),
        });
        k += 1;
    }
    out
}


fn lone_quote_exec(v: &CstValue) -> (r: bool)
    ensures
        r == crate::cst_helper::lone_quote(v@),
{
    match v.kind {
        CstValueKind::String { .. } => {
            let cs = crate::text::chars_of(v.raw.as_str());
            let lo = crate::text::skip_ws_forward(&cs, 0, cs.len());
            let hi = crate::text::skip_ws_backward(&cs, lo, cs.len());
            proof {
                let x = cs@.subrange(0, cs@.len() as int);
                assert(x =~= cs@);
                assert(x.skip(lo as int) =~= cs@.subrange(lo as int, cs@.len() as int));
                let t = cs@.subrange(lo as int, cs@.len() as int);
                assert(t.take(t.len() - (cs@.len() - hi)) =~= cs@.subrange(lo as int, hi as int));
                assert(crate::text::trim(v@.raw) == cs@.subrange(lo as int, hi as int));
            }
            let ghost t = cs@.subrange(lo as int, hi as int);
            if hi > lo && hi - lo == 1 {
                assert(t =~= seq![cs@[lo as int]]);
                let c = cs[lo];
                proof {
                    assert(seq!['"'][0] == '"');
                    assert(seq!['\''][0] == '\'');
                    if t == seq!['"'] {
                        assert(t[0] == '"');
                    }
                    if t == seq!['\''] {
                        assert(t[0] == '\'');
                    }
                    if c == '"' {
                        assert(t =~= seq!['"']);
                    }
                    if c == '\'' {
                        assert(t =~= seq!['\'']);
                    }
                }
                c == '"' || c == '\''
            } else {
                assert(t.len() != 1);
                assert(seq!['"'].len() == 1);
                assert(seq!['\''].len() == 1);
                false
            }
        },
        _ => false,
    }
}

/// Whether `goto_candidates` can read the jumps at `pos`: every value's
/// span starts and ends on a line from 1, and the `story` and `paragraph`
/// values of the jumps under the cursor are not lone quotes.
pub fn goto_values_ok(root: &CstRoot, pos: &Position) -> (r: bool)
    requires
        lsp_spans_ok(root@.nodes),
    ensures
        r == (value_spans_ok(nodes_system_calls(root@.nodes)) && jump_values_ok(
            nodes_system_calls(root@.nodes),
            *pos,
        )),
{
    let calls = extract_system_calls(root);
    let ghost sv = calls@.map_values(|c: &CstSystemCall| c@);
    let mut i: usize = 0;
    while i < calls.len()
        invariant
            0 <= i <= calls@.len(),
            sv == calls@.map_values(|c: &CstSystemCall| c@),
            sv == nodes_system_calls(root@.nodes),
            calls_spans_ok(sv),
            forall|a: int, b: int|
                0 <= a < i && 0 <= b < sv[a].arguments.len() && (#[trigger] sv[a].arguments[b]).value is Some
                    ==> span_ok(sv[a].arguments[b].value->0.span),
            forall|a: int, b: int|
                0 <= a < i && 0 <= b < sv[a].arguments.len() && range_contains(span_range(sv[a].span), *pos)
                    && is_jump(sv[a].command) && (#[trigger] sv[a].arguments[b]).value is Some && (
                sv[a].arguments[b].name == "story"@ || sv[a].arguments[b].name == "paragraph"@)
                    ==> !crate::cst_helper::lone_quote(sv[a].arguments[b].value->0),
        decreases calls.len() - i,
    {
        let c = calls[i];
        assert(sv[i as int] == c@);
        assert(span_ok(sv[i as int].span));
        let range = span_to_range(&c.span);
        let cmd = c.command.as_str();
        let jump_here = contains(&range, pos) && (str_eq(cmd, "goto") || str_eq(cmd, "call") || str_eq(cmd, "replace"));
        let mut j: usize = 0;
        while j < c.arguments.len()
            invariant
                0 <= j <= c.arguments@.len(),
                i < sv.len(),
                sv == nodes_system_calls(root@.nodes),
                sv[i as int] == c@,
                c@.arguments.len() == c.arguments@.len(),
                jump_here == (range_contains(span_range(c@.span), *pos) && is_jump(c@.command)),
                forall|b: int| 0 <= b < j && (#[trigger] c@.arguments[b]).value is Some ==> span_ok(c@.arguments[b].value->0.span),
                forall|b: int|
                    0 <= b < j && jump_here && (#[trigger] c@.arguments[b]).value is Some && (c@.arguments[b].name
                        == "story"@ || c@.arguments[b].name == "paragraph"@) ==> !crate::cst_helper::lone_quote(
                        c@.arguments[b].value->0,
                    ),
            decreases c.arguments.len() - j,
        {
            let a = &c.arguments[j];
            assert(c@.arguments[j as int] == a@);
            match &a.value {
                Some(v) => {
                    if v.span.start_line < 1 || v.span.end_line < 1 {
                        assert(!span_ok(sv[i as int].arguments[j as int].value->0.span));
                        return false;
                    }
                    let named = str_eq(a.name.as_str(), "story") || str_eq(a.name.as_str(), "paragraph");
                    if jump_here && named && lone_quote_exec(v) {
                        assert(crate::cst_helper::lone_quote(sv[i as int].arguments[j as int].value->0));
                        return false;
                    }
                },
                None => {},
            }
            j += 1;
        }
        i += 1;
    }
    true
}

} // verus!
