//! Properties of the schema, of the completions, of the diagnostics and
//! of hovering that hold for every input.
use vstd::prelude::*;

use crate::completion::{
    command_entries, completion_spec, line_prefix, names_of, property_entries, CompletionKind,
};
use crate::schema::{
    add_all_unique, add_unique, command_name, first_position, move_to_front, node_definitions,
    nodes_definitions, options_of, own_definitions, DefinitionV, PropertyV, SchemaNodeV,
};
use crate::text::trim_end;
use crate::cst::{CstArgumentV, CstNodeV, CstValueKind};
use crate::cst_helper::nodes_commands;
use crate::lsp::{
    argument_diagnostics, command_diagnostics, commands_diagnostics, debug_list, document_diagnostics_spec,
    expected_types, first_definition, one_argument_diagnostics, schema_diagnostic, schema_part, span_range,
    DiagnosticV, Severity, argument_hover, hover_spec, text_or_empty,
};
use crate::cst_helper::{range_contains, Position};
use crate::schema::property_get;

verus! {

/// Completing the arguments of a command never offers `command` or an
/// argument that is already written.
pub proof fn law_property_entries_skip_written(
    props: Seq<(Seq<char>, PropertyV)>,
    matching: Seq<DefinitionV>,
    existing: Seq<Seq<char>>,
)
    ensures
        forall|i: int|
            0 <= i < property_entries(props, matching, existing).len() ==> {
                let l = (#[trigger] property_entries(props, matching, existing)[i]).label;
                &&& !existing.contains(l)
                &&& l != "command"@
            },
    decreases props.len(),
{
    if props.len() > 0 {
        law_property_entries_skip_written(props.drop_last(), matching, existing);
        let prev = property_entries(props.drop_last(), matching, existing);
        assert forall|i: int| 0 <= i < property_entries(props, matching, existing).len() implies {
            let l = (#[trigger] property_entries(props, matching, existing)[i]).label;
            &&& !existing.contains(l)
            &&& l != "command"@
        } by {
            if i < prev.len() {
                assert(property_entries(props, matching, existing)[i] == prev[i]);
            }
        }
    }
}

proof fn lemma_command_entry_labels(defs: Seq<DefinitionV>)
    ensures
        forall|i: int|
            0 <= i < command_entries(defs).len() ==> names_of(defs).contains(
                (#[trigger] command_entries(defs)[i]).label,
            ),
    decreases defs.len(),
{
    if defs.len() > 0 {
        let d = defs.drop_last();
        lemma_command_entry_labels(d);
        let prev = command_entries(d);
        assert forall|i: int| 0 <= i < command_entries(defs).len() implies names_of(defs).contains(
            (#[trigger] command_entries(defs)[i]).label,
        ) by {
            if i < prev.len() {
                assert(command_entries(defs)[i] == prev[i]);
                let k = choose|k: int| 0 <= k < names_of(d).len() && names_of(d)[k] == prev[i].label;
                assert(names_of(defs)[k] == names_of(d)[k]);
            } else {
                let n = command_name(defs.last().properties)->0;
                assert(names_of(defs)[names_of(d).len() as int] == n);
            }
        }
    }
}

/// Completing command names offers each name once, even when several
/// definitions share it.
pub proof fn law_command_entries_distinct(defs: Seq<DefinitionV>)
    ensures
        forall|i: int, j: int|
            0 <= i < j < command_entries(defs).len() ==> (#[trigger] command_entries(defs)[i]).label
                != (#[trigger] command_entries(defs)[j]).label,
    decreases defs.len(),
{
    if defs.len() > 0 {
        let d = defs.drop_last();
        law_command_entries_distinct(d);
        lemma_command_entry_labels(d);
        let prev = command_entries(d);
        let all = command_entries(defs);
        assert forall|i: int, j: int| 0 <= i < j < all.len() implies (#[trigger] all[i]).label != (
        #[trigger] all[j]).label by {
            assert(all[i] == prev[i]);
            if j < prev.len() {
                assert(all[j] == prev[j]);
            } else {
                assert(names_of(d).contains(prev[i].label));
            }
        }
    }
}

proof fn lemma_add_unique_distinct(list: Seq<Seq<char>>, v: Seq<char>)
    requires
        list.no_duplicates(),
    ensures
        add_unique(list, v).no_duplicates(),
        forall|x: Seq<char>| list.contains(x) ==> #[trigger] add_unique(list, v).contains(x),
        add_unique(list, v).contains(v),
{
    if !list.contains(v) {
        let l = list.push(v);
        assert forall|i: int, j: int| 0 <= i < l.len() && 0 <= j < l.len() && i != j implies l[i] != l[j] by {
            if i < list.len() && j < list.len() {
            } else if i == list.len() {
                assert(l[j] == list[j]);
            } else {
                assert(l[i] == list[i]);
            }
        }
        assert forall|x: Seq<char>| list.contains(x) implies #[trigger] l.contains(x) by {
            let k = choose|k: int| 0 <= k < list.len() && list[k] == x;
            assert(l[k] == x);
        }
        assert(l[list.len() as int] == v);
    }
}

proof fn lemma_add_all_unique_distinct(list: Seq<Seq<char>>, vs: Seq<Seq<char>>)
    requires
        list.no_duplicates(),
    ensures
        add_all_unique(list, vs).no_duplicates(),
    decreases vs.len(),
{
    if vs.len() > 0 {
        lemma_add_all_unique_distinct(list, vs.drop_last());
        lemma_add_unique_distinct(add_all_unique(list, vs.drop_last()), vs.last());
    }
}

proof fn lemma_options_distinct(defs: Seq<DefinitionV>, name: Seq<char>)
    ensures
        options_of(defs, name).no_duplicates(),
    decreases defs.len(),
{
    if defs.len() > 0 {
        lemma_options_distinct(defs.drop_last(), name);
        let prev = options_of(defs.drop_last(), name);
        let d = defs.last();
        match crate::schema::property_get(d.properties, name) {
            None => {},
            Some(p) => {
                let l1 = match p.enum_values {
                    Some(vs) => {
                        lemma_add_all_unique_distinct(prev, vs);
                        add_all_unique(prev, vs)
                    },
                    None => prev,
                };
                match p.const_value {
                    Some(c) => lemma_add_unique_distinct(l1, c),
                    None => {},
                }
            },
        }
    }
}

proof fn lemma_first_position_found(list: Seq<Seq<char>>, d: Seq<char>)
    ensures
        list.contains(d) ==> (first_position(list, d) matches Some(i) && 0 <= i < list.len() && list[i] == d),
        !list.contains(d) ==> first_position(list, d) is None,
    decreases list.len(),
{
    if list.len() > 0 {
        lemma_first_position_found(list.drop_first(), d);
        if list[0] != d {
            if list.contains(d) {
                let k = choose|k: int| 0 <= k < list.len() && list[k] == d;
                assert(list.drop_first()[k - 1] == d);
            }
            if list.drop_first().contains(d) {
                let k = choose|k: int| 0 <= k < list.drop_first().len() && list.drop_first()[k] == d;
                assert(list[k + 1] == d);
            }
        } else {
            assert(list.contains(d)) by {
                assert(list[0] == d);
            }
        }
    }
}

/// The values offered for a property are each offered once, and the
/// default, when it is among them, comes first.
pub proof fn law_value_options(defs: Seq<DefinitionV>, name: Seq<char>, default: Option<Seq<char>>)
    ensures
        move_to_front(options_of(defs, name), default).no_duplicates(),
        move_to_front(options_of(defs, name), default).len() == options_of(defs, name).len(),
        match default {
            Some(x) => options_of(defs, name).contains(x) ==> move_to_front(options_of(defs, name), default)[0]
                == x,
            None => true,
        },
{
    let list = options_of(defs, name);
    lemma_options_distinct(defs, name);
    match default {
        None => {},
        Some(x) => {
            lemma_first_position_found(list, x);
            match first_position(list, x) {
                Some(i) => {
                    let r = seq![x] + list.remove(i);
                    let rest = list.remove(i);
                    assert forall|a: int, b: int| 0 <= a < r.len() && 0 <= b < r.len() && a != b implies r[a]
                        != r[b] by {
                        if a == 0 && b > 0 {
                            let bb = if b - 1 < i { b - 1 } else { b };
                            assert(r[b] == list[bb]);
                            assert(bb != i);
                        } else if b == 0 && a > 0 {
                            let aa = if a - 1 < i { a - 1 } else { a };
                            assert(r[a] == list[aa]);
                            assert(aa != i);
                        } else if a > 0 && b > 0 {
                            let aa = if a - 1 < i { a - 1 } else { a };
                            let bb = if b - 1 < i { b - 1 } else { b };
                            assert(r[a] == list[aa]);
                            assert(r[b] == list[bb]);
                        }
                    }
                },
                None => {},
            }
        },
    }
}

/// Every definition a schema yields fixes a command name.
pub proof fn law_definitions_are_named(n: SchemaNodeV)
    ensures
        forall|i: int|
            0 <= i < node_definitions(n).len() ==> (#[trigger] command_name(
                node_definitions(n)[i].properties,
            )) is Some,
    decreases n, 1nat,
{
    lemma_nodes_named(n.one_of);
    lemma_nodes_named(n.any_of);
    lemma_nodes_named(n.all_of);
    let a = own_definitions(n);
    let b = nodes_definitions(n.one_of);
    let c = nodes_definitions(n.any_of);
    let d = nodes_definitions(n.all_of);
    let all = node_definitions(n);
    assert(all == a + b + c + d);
    assert forall|i: int| 0 <= i < all.len() implies (#[trigger] command_name(all[i].properties)) is Some by {
        if i < a.len() {
            assert(all[i] == a[i]);
        } else if i < a.len() + b.len() {
            assert(all[i] == b[i - a.len()]);
        } else if i < a.len() + b.len() + c.len() {
            assert(all[i] == c[i - a.len() - b.len()]);
        } else {
            assert(all[i] == d[i - a.len() - b.len() - c.len()]);
        }
    }
}

proof fn lemma_nodes_named(ns: Seq<SchemaNodeV>)
    ensures
        forall|i: int|
            0 <= i < nodes_definitions(ns).len() ==> (#[trigger] command_name(
                nodes_definitions(ns)[i].properties,
            )) is Some,
    decreases ns, 0nat,
{
    if ns.len() > 0 {
        lemma_nodes_named(ns.drop_last());
        law_definitions_are_named(ns.last());
        let p = nodes_definitions(ns.drop_last());
        let q = node_definitions(ns.last());
        let all = nodes_definitions(ns);
        assert forall|i: int| 0 <= i < all.len() implies (#[trigger] command_name(all[i].properties)) is Some by {
            if i < p.len() {
                assert(all[i] == p[i]);
            } else {
                assert(all[i] == q[i - p.len()]);
            }
        }
    }
}

/// Right after `=` only values are completed: the completions there are
/// nothing, or a list of values (never argument names, paragraphs or
/// command names), and never an empty list.
pub proof fn law_only_values_after_equals(
    line: Seq<char>,
    col: int,
    schema: Option<Seq<DefinitionV>>,
    paragraphs: Seq<Seq<char>>,
)
    requires
        trim_end(line_prefix(line, col)).len() > 0,
        trim_end(line_prefix(line, col)).last() == '=',
    ensures
        completion_spec(line, col, schema, paragraphs) matches Some(v) ==> v.len() > 0 && forall|i: int|
            0 <= i < v.len() ==> (#[trigger] v[i]).kind == CompletionKind::Value,
{
}

proof fn lemma_concat_contains<T>(a: Seq<T>, b: Seq<T>, x: T)
    ensures
        a.contains(x) ==> (a + b).contains(x),
        b.contains(x) ==> (a + b).contains(x),
{
    if a.contains(x) {
        let k = choose|k: int| 0 <= k < a.len() && a[k] == x;
        assert((a + b)[k] == x);
    }
    if b.contains(x) {
        let k = choose|k: int| 0 <= k < b.len() && b[k] == x;
        assert((a + b)[a.len() + k] == x);
    }
}

proof fn lemma_argument_diagnostics_contain(d: DefinitionV, args: Seq<CstArgumentV>, i: int, x: DiagnosticV)
    requires
        0 <= i < args.len(),
        one_argument_diagnostics(d, args[i]).contains(x),
    ensures
        argument_diagnostics(d, args).contains(x),
    decreases args.len(),
{
    let p = args.drop_last();
    if i == args.len() - 1 {
        lemma_concat_contains(argument_diagnostics(d, p), one_argument_diagnostics(d, args.last()), x);
    } else {
        assert(p[i] == args[i]);
        lemma_argument_diagnostics_contain(d, p, i, x);
        lemma_concat_contains(argument_diagnostics(d, p), one_argument_diagnostics(d, args.last()), x);
    }
}

proof fn lemma_commands_diagnostics_contain(
    defs: Seq<DefinitionV>,
    cmds: Seq<crate::cst::CstCallV>,
    c: int,
    x: DiagnosticV,
)
    requires
        0 <= c < cmds.len(),
        command_diagnostics(defs, cmds[c]).contains(x),
    ensures
        commands_diagnostics(defs, cmds).contains(x),
    decreases cmds.len(),
{
    let p = cmds.drop_last();
    if c < cmds.len() - 1 {
        assert(p[c] == cmds[c]);
        lemma_commands_diagnostics_contain(defs, p, c, x);
    }
    lemma_concat_contains(commands_diagnostics(defs, p), command_diagnostics(defs, cmds.last()), x);
}

/// With a schema, every argument of a known command whose property has a
/// type that its value cannot have (a boolean where no `boolean` is
/// listed, a number where neither `number` nor `integer` is, a string or
/// template where no `string` is) gets the warning `Type mismatch.
/// Expected: [...]` over the argument, whichever argument of the command
/// it is.
pub proof fn law_type_mismatch_reported(nodes: Seq<CstNodeV>, defs: Seq<DefinitionV>, c: int, i: int)
    requires
        0 <= c < nodes_commands(nodes).len(),
        0 <= i < nodes_commands(nodes)[c].arguments.len(),
        first_definition(defs, nodes_commands(nodes)[c].command) is Some,
        ({
            let a = nodes_commands(nodes)[c].arguments[i];
            let d = first_definition(defs, nodes_commands(nodes)[c].command)->0;
            &&& property_get(d.properties, a.name) matches Some(p) && p.type_ is Some
            &&& a.value is Some
            &&& {
                let ts = expected_types(property_get(d.properties, a.name)->0.type_->0);
                let k = a.value->0.kind;
                ||| k == CstValueKind::Boolean && !ts.contains("boolean"@)
                ||| (k == CstValueKind::Integer || k == CstValueKind::Float) && !ts.contains("number"@)
                    && !ts.contains("integer"@)
                ||| (k is String || k == CstValueKind::TemplateString) && !ts.contains("string"@)
            }
        }),
    ensures
        ({
            let a = nodes_commands(nodes)[c].arguments[i];
            let d = first_definition(defs, nodes_commands(nodes)[c].command)->0;
            let ts = expected_types(property_get(d.properties, a.name)->0.type_->0);
            document_diagnostics_spec(nodes, Some(defs)).contains(
                schema_diagnostic(Severity::Warning, span_range(a.span), "Type mismatch. Expected: "@ + debug_list(ts)),
            )
        }),
{
    let cmd = nodes_commands(nodes)[c];
    let a = cmd.arguments[i];
    let d = first_definition(defs, cmd.command)->0;
    let ts = expected_types(property_get(d.properties, a.name)->0.type_->0);
    let x = schema_diagnostic(Severity::Warning, span_range(a.span), "Type mismatch. Expected: "@ + debug_list(ts));
    assert(one_argument_diagnostics(d, a) == seq![x]);
    assert(one_argument_diagnostics(d, a)[0] == x);
    lemma_argument_diagnostics_contain(d, cmd.arguments, i, x);
    lemma_concat_contains(crate::lsp::required_of(d, cmd), argument_diagnostics(d, cmd.arguments), x);
    lemma_commands_diagnostics_contain(defs, nodes_commands(nodes), c, x);
    lemma_concat_contains(
        crate::lsp::syntax_diagnostics(crate::lsp::nodes_errors(nodes)),
        schema_part(nodes, Some(defs)),
        x,
    );
}

proof fn lemma_property_entries_are_fields(
    props: Seq<(Seq<char>, PropertyV)>,
    matching: Seq<DefinitionV>,
    existing: Seq<Seq<char>>,
)
    ensures
        forall|i: int|
            0 <= i < property_entries(props, matching, existing).len() ==> (#[trigger] property_entries(
                props,
                matching,
                existing,
            )[i]).kind == CompletionKind::Field,
    decreases props.len(),
{
    if props.len() > 0 {
        lemma_property_entries_are_fields(props.drop_last(), matching, existing);
        let prev = property_entries(props.drop_last(), matching, existing);
        assert forall|i: int| 0 <= i < property_entries(props, matching, existing).len() implies (
        #[trigger] property_entries(props, matching, existing)[i]).kind == CompletionKind::Field by {
            if i < prev.len() {
                assert(property_entries(props, matching, existing)[i] == prev[i]);
            }
        }
    }
}

proof fn lemma_command_entries_are_functions(defs: Seq<DefinitionV>)
    ensures
        forall|i: int|
            0 <= i < command_entries(defs).len() ==> (#[trigger] command_entries(defs)[i]).kind
                == CompletionKind::Function,
    decreases defs.len(),
{
    if defs.len() > 0 {
        lemma_command_entries_are_functions(defs.drop_last());
        let prev = command_entries(defs.drop_last());
        assert forall|i: int| 0 <= i < command_entries(defs).len() implies (#[trigger] command_entries(
            defs,
        )[i]).kind == CompletionKind::Function by {
            if i < prev.len() {
                assert(command_entries(defs)[i] == prev[i]);
            }
        }
    }
}

/// Every completion that names a paragraph is one of the document's
/// paragraphs, and it inserts `paragraph="<name>"`, an argument named
/// `paragraph` whose string value is that paragraph's name.
pub proof fn law_paragraph_completions_insert_jump_argument(
    line: Seq<char>,
    col: int,
    schema: Option<Seq<DefinitionV>>,
    paragraphs: Seq<Seq<char>>,
)
    ensures
        completion_spec(line, col, schema, paragraphs) matches Some(v) ==> forall|i: int|
            0 <= i < v.len() && (#[trigger] v[i]).kind == CompletionKind::Reference ==> {
                &&& v[i].insert_text == "paragraph=\""@ + v[i].label + "\""@
                &&& paragraphs.contains(v[i].label)
            },
{
    let prefix = line_prefix(line, col);
    let trimmed = trim_end(prefix);
    if let Some(v) = completion_spec(line, col, schema, paragraphs) {
        if !(trimmed.len() > 0 && trimmed.last() == '=') {
            match crate::cst_helper::command_at(line, col) {
                Some((name, _, existing)) => {
                    if crate::completion::is_system_call(prefix, name) {
                        let a = crate::completion::named_argument_entries(existing);
                        let b = crate::completion::paragraph_entries(paragraphs, existing);
                        assert(v == a + b);
                        assert forall|i: int| 0 <= i < v.len() && (#[trigger] v[i]).kind == CompletionKind::Reference implies {
                            &&& v[i].insert_text == "paragraph=\""@ + v[i].label + "\""@
                            &&& paragraphs.contains(v[i].label)
                        } by {
                            if i < a.len() {
                                assert(v[i] == a[i]);
                            } else {
                                assert(v[i] == b[i - a.len()]);
                                assert(b == paragraphs.map_values(|n: Seq<char>| crate::completion::paragraph_entry(n)));
                                assert(v[i].label == paragraphs[i - a.len()]);
                            }
                        }
                    } else {
                        let d = first_definition(schema->0, name)->0;
                        lemma_property_entries_are_fields(
                            d.properties,
                            crate::completion::matching_definitions(schema->0, name),
                            existing,
                        );
                    }
                },
                None => {
                    match crate::cst_helper::last_index(prefix, '@') {
                        Some(_) => {
                            lemma_command_entries_are_functions(schema->0);
                        },
                        None => {
                            assert(v == crate::completion::system_call_entries());
                        },
                    }
                },
            }
        }
    }
}

/// Hovering over the arguments of a command shows the description of the
/// property of the first argument under the cursor that the definition
/// knows, with that argument's range, wherever it stands among the
/// arguments; and nothing when no argument under the cursor is known.
pub proof fn law_argument_hover_first_known(d: DefinitionV, args: Seq<CstArgumentV>, pos: Position, i: int)
    requires
        0 <= i <= args.len(),
        forall|j: int|
            0 <= j < i ==> !(range_contains(span_range((#[trigger] args[j]).span), pos) && property_get(
                d.properties,
                args[j].name,
            ) is Some),
    ensures
        i < args.len() && range_contains(span_range(args[i].span), pos) && property_get(d.properties, args[i].name) is Some
            ==> argument_hover(d, args, pos) == Some(
            (text_or_empty(property_get(d.properties, args[i].name)->0.description), span_range(args[i].span)),
        ),
        i == args.len() ==> argument_hover(d, args, pos) is None,
    decreases i,
{
    if i > 0 {
        let rest = args.drop_first();
        assert(!(range_contains(span_range(args[0].span), pos) && property_get(d.properties, args[0].name) is Some));
        assert forall|j: int| 0 <= j < i - 1 implies !(range_contains(span_range((#[trigger] rest[j]).span), pos)
            && property_get(d.properties, rest[j].name) is Some) by {
            assert(rest[j] == args[j + 1]);
        }
        law_argument_hover_first_known(d, rest, pos, i - 1);
        if i < args.len() {
            assert(rest[i - 1] == args[i]);
        }
    }
}

/// Hovering over an argument of the first command under the cursor, a
/// command the schema defines, off its name, shows the description of the
/// first argument under the cursor whose property the definition knows,
/// with that argument's range: not only the first argument is looked at.
pub proof fn law_hover_on_argument(cmds: Seq<crate::cst::CstCallV>, defs: Seq<DefinitionV>, pos: Position, c: int, i: int)
    requires
        0 <= c < cmds.len(),
        forall|k: int| 0 <= k < c ==> !range_contains(span_range((#[trigger] cmds[k]).span), pos),
        range_contains(span_range(cmds[c].span), pos),
        first_definition(defs, cmds[c].command) is Some,
        !range_contains(span_range(cmds[c].name_span), pos),
        0 <= i < cmds[c].arguments.len(),
        range_contains(span_range(cmds[c].arguments[i].span), pos),
        property_get(first_definition(defs, cmds[c].command)->0.properties, cmds[c].arguments[i].name) is Some,
        forall|j: int|
            0 <= j < i ==> !(range_contains(span_range((#[trigger] cmds[c].arguments[j]).span), pos) && property_get(
                first_definition(defs, cmds[c].command)->0.properties,
                cmds[c].arguments[j].name,
            ) is Some),
    ensures
        hover_spec(cmds, Some(defs), pos) == Some(
            (
                text_or_empty(
                    property_get(
                        first_definition(defs, cmds[c].command)->0.properties,
                        cmds[c].arguments[i].name,
                    )->0.description,
                ),
                span_range(cmds[c].arguments[i].span),
            ),
        ),
    decreases c,
{
    if c == 0 {
        let d = first_definition(defs, cmds[0].command)->0;
        law_argument_hover_first_known(d, cmds[0].arguments, pos, i);
    } else {
        let rest = cmds.drop_first();
        assert(!range_contains(span_range(cmds[0].span), pos));
        assert(rest[c - 1] == cmds[c]);
        assert forall|k: int| 0 <= k < c - 1 implies !range_contains(span_range((#[trigger] rest[k]).span), pos) by {
            assert(rest[k] == cmds[k + 1]);
        }
        law_hover_on_argument(rest, defs, pos, c - 1, i);
    }
}

/// With a schema, the arguments of a known command give no warning when
/// each of them is a property of the definition and, where the property
/// has a type, has no value, a variable, or a value of that type (a
/// boolean where `boolean` is listed, a number where `number` or
/// `integer` is, a string or template where `string` is).
pub proof fn law_fitting_arguments_no_warnings(d: DefinitionV, args: Seq<CstArgumentV>)
    requires
        forall|i: int|
            0 <= i < args.len() ==> {
                let a = #[trigger] args[i];
                &&& property_get(d.properties, a.name) is Some
                &&& match (property_get(d.properties, a.name)->0.type_, a.value) {
                    (Some(t), Some(v)) => {
                        let ts = expected_types(t);
                        ||| v.kind == CstValueKind::Variable
                        ||| v.kind == CstValueKind::Boolean && ts.contains("boolean"@)
                        ||| (v.kind == CstValueKind::Integer || v.kind == CstValueKind::Float) && (ts.contains(
                            "number"@,
                        ) || ts.contains("integer"@))
                        ||| (v.kind is String || v.kind == CstValueKind::TemplateString) && ts.contains(
                            "string"@,
                        )
                    },
                    _ => true,
                }
            },
    ensures
        argument_diagnostics(d, args) == Seq::<DiagnosticV>::empty(),
    decreases args.len(),
{
    if args.len() > 0 {
        let p = args.drop_last();
        assert forall|i: int| 0 <= i < p.len() implies {
            let a = #[trigger] p[i];
            &&& property_get(d.properties, a.name) is Some
            &&& match (property_get(d.properties, a.name)->0.type_, a.value) {
                (Some(t), Some(v)) => {
                    let ts = expected_types(t);
                    ||| v.kind == CstValueKind::Variable
                    ||| v.kind == CstValueKind::Boolean && ts.contains("boolean"@)
                    ||| (v.kind == CstValueKind::Integer || v.kind == CstValueKind::Float) && (ts.contains(
                        "number"@,
                    ) || ts.contains("integer"@))
                    ||| (v.kind is String || v.kind == CstValueKind::TemplateString) && ts.contains(
                        "string"@,
                    )
                },
                _ => true,
            }
        } by {
            assert(p[i] == args[i]);
        }
        law_fitting_arguments_no_warnings(d, p);
        let a = args.last();
        assert(args[args.len() - 1] == a);
        assert(one_argument_diagnostics(d, a) == Seq::<DiagnosticV>::empty());
        assert(argument_diagnostics(d, args) =~= Seq::<DiagnosticV>::empty());
    }
}

/// Hovering over the name of the first command under the cursor, a
/// command the schema defines, shows the definition's description with
/// the name's range.
pub proof fn law_hover_on_command_name(cmds: Seq<crate::cst::CstCallV>, defs: Seq<DefinitionV>, pos: Position, c: int)
    requires
        0 <= c < cmds.len(),
        forall|k: int| 0 <= k < c ==> !range_contains(span_range((#[trigger] cmds[k]).span), pos),
        range_contains(span_range(cmds[c].span), pos),
        first_definition(defs, cmds[c].command) is Some,
        range_contains(span_range(cmds[c].name_span), pos),
    ensures
        hover_spec(cmds, Some(defs), pos) == Some(
            (text_or_empty(first_definition(defs, cmds[c].command)->0.description), span_range(cmds[c].name_span)),
        ),
    decreases c,
{
    if c > 0 {
        let rest = cmds.drop_first();
        assert(!range_contains(span_range(cmds[0].span), pos));
        assert(rest[c - 1] == cmds[c]);
        assert forall|k: int| 0 <= k < c - 1 implies !range_contains(span_range((#[trigger] rest[k]).span), pos) by {
            assert(rest[k] == cmds[k + 1]);
        }
        law_hover_on_command_name(rest, defs, pos, c - 1);
    }
}

/// In a jump (`#goto`, `#call`, `#replace`) that has no `paragraph`
/// argument yet, away from a `=`, every paragraph of the document is
/// offered, inserting `paragraph="<name>"`.
pub proof fn law_jump_offers_every_paragraph(
    line: Seq<char>,
    col: int,
    schema: Option<Seq<DefinitionV>>,
    paragraphs: Seq<Seq<char>>,
    k: int,
)
    requires
        0 <= k < paragraphs.len(),
        !(trim_end(line_prefix(line, col)).len() > 0 && trim_end(line_prefix(line, col)).last() == '='),
        crate::cst_helper::command_at(line, col) matches Some((name, _, existing)) && crate::completion::is_system_call(
            line_prefix(line, col),
            name,
        ) && crate::lsp::is_jump(name) && !existing.contains("paragraph"@),
    ensures
        completion_spec(line, col, schema, paragraphs) matches Some(v) && exists|i: int|
            0 <= i < v.len() && (#[trigger] v[i]).label == paragraphs[k] && v[i].kind == CompletionKind::Reference
                && v[i].insert_text == "paragraph=\""@ + paragraphs[k] + "\""@,
{
    let (name, _, existing) = crate::cst_helper::command_at(line, col)->0;
    let a = crate::completion::named_argument_entries(existing);
    let b = crate::completion::paragraph_entries(paragraphs, existing);
    let v = completion_spec(line, col, schema, paragraphs)->0;
    assert(v == a + b);
    assert(b == paragraphs.map_values(|n: Seq<char>| crate::completion::paragraph_entry(n)));
    assert(v[a.len() + k] == b[k]);
}

} // verus!
