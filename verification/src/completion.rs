//! Completions at the cursor: argument names and paragraph names for the
//! built-in jumps, properties with their values for schema commands,
//! command names after `@` and system call names after `#`.
use vstd::prelude::*;

use crate::cst::{CstParagraph, CstParagraphV, CstRoot, cst_paragraph_view};
use crate::cst_helper::{
    alphanumeric, command_at, extract_paragraphs, find_command_at_position, last_index,
    nodes_paragraphs,
};
use crate::format::strings_view;
use crate::lsp::{first_definition, is_jump};
use crate::schema::{
    admits_string, command_name, move_to_front, opt_text, options_of, texts_view,
    CommandDefinition, CommandSchema, DefinitionV, Property, PropertyV, StringOrArray, TypeV,
};
use crate::text::{
    chars_of, is_unicode_whitespace, push_char, push_str, skip_ws_backward, str_eq, trailing_ws,
    trim_end, unicode_whitespace,
};

verus! {

/// The kind of a completion, which editors show with an icon.
#[derive(Debug, Clone, Copy, PartialEq, Eq, Structural)]
pub enum CompletionKind {
    Field,
    Reference,
    Function,
    Keyword,
    Value,
}

/// A completion: what the list shows and what is inserted. A snippet holds
/// `$1`-style placeholders; `trigger_suggest` asks the editor to complete
/// again right after.
pub struct CompletionEntry {
    pub label: String,
    pub kind: CompletionKind,
    pub detail: Option<String>,
    pub insert_text: String,
    pub snippet: bool,
    pub trigger_suggest: bool,
}

pub struct EntryV {
    pub label: Seq<char>,
    pub kind: CompletionKind,
    pub detail: Option<Seq<char>>,
    pub insert_text: Seq<char>,
    pub snippet: bool,
    pub trigger_suggest: bool,
}

impl View for CompletionEntry {
    type V = EntryV;

    open spec fn view(&self) -> EntryV {
        EntryV {
            label: self.label@,
            kind: self.kind,
            detail: opt_text(self.detail),
            insert_text: self.insert_text@,
            snippet: self.snippet,
            trigger_suggest: self.trigger_suggest,
        }
    }
}

pub open spec fn entries_view(v: Seq<CompletionEntry>) -> Seq<EntryV> {
    v.map_values(|e: CompletionEntry| e@)
}

// ---------------------------------------------------------------------
// The text before the cursor
// ---------------------------------------------------------------------

/// The first `col` characters of the line, or all of it.
pub open spec fn line_prefix(line: Seq<char>, col: int) -> Seq<char> {
    if col <= line.len() {
        line.take(col)
    } else {
        line
    }
}

/// The start of the last occurrence of `pat` in `s`.
pub open spec fn last_occurrence(s: Seq<char>, pat: Seq<char>) -> Option<int>
    decreases s.len(),
{
    if s.len() < pat.len() {
        None
    } else if s.skip(s.len() - pat.len()) == pat {
        Some(s.len() - pat.len())
    } else if s.len() == 0 {
        None
    } else {
        last_occurrence(s.drop_last(), pat)
    }
}

/// Whether the command under the cursor is a system call: its name after
/// `#` occurs later in the text before the cursor than after `@`.
pub open spec fn is_system_call(prefix: Seq<char>, name: Seq<char>) -> bool {
    match last_occurrence(prefix, seq!['#'] + name) {
        None => false,
        Some(h) => match last_occurrence(prefix, seq!['@'] + name) {
            None => true,
            Some(a) => h > a,
        },
    }
}

pub open spec fn has_space_or_paren(s: Seq<char>) -> bool {
    exists|i: int| 0 <= i < s.len() && (is_unicode_whitespace(#[trigger] s[i]) || s[i] == '(')
}

// ---------------------------------------------------------------------
// Entries
// ---------------------------------------------------------------------

pub open spec fn field_entry(name: Seq<char>) -> EntryV {
    EntryV {
        label: name,
        kind: CompletionKind::Field,
        detail: None,
        insert_text: name + "="@,
        snippet: false,
        trigger_suggest: false,
    }
}

/// `paragraph=` and `story=` for a jump, but those already written.
pub open spec fn named_argument_entries(existing: Seq<Seq<char>>) -> Seq<EntryV> {
    (if existing.contains("paragraph"@) {
        Seq::empty()
    } else {
        seq![field_entry("paragraph"@)]
    }) + (if existing.contains("story"@) {
        Seq::empty()
    } else {
        seq![field_entry("story"@)]
    })
}

pub open spec fn paragraph_entry(name: Seq<char>) -> EntryV {
    EntryV {
        label: name,
        kind: CompletionKind::Reference,
        detail: Some("Paragraph"@),
        insert_text: "paragraph=\""@ + name + "\""@,
        snippet: false,
        trigger_suggest: false,
    }
}

/// The paragraphs of the document, unless a paragraph is already given.
pub open spec fn paragraph_entries(paragraphs: Seq<Seq<char>>, existing: Seq<Seq<char>>) -> Seq<EntryV> {
    if existing.contains("paragraph"@) {
        Seq::empty()
    } else {
        paragraphs.map_values(|n: Seq<char>| paragraph_entry(n))
    }
}

/// A choice of a snippet with `\`, `,` and `|` escaped by a backslash.
pub open spec fn escape_choice(s: Seq<char>) -> Seq<char>
    decreases s.len(),
{
    if s.len() == 0 {
        Seq::empty()
    } else {
        escape_choice(s.drop_last()) + if s.last() == '\\' || s.last() == ',' || s.last() == '|' {
            seq!['\\', s.last()]
        } else {
            seq![s.last()]
        }
    }
}

/// Escaped choices separated by commas.
pub open spec fn join_choices(options: Seq<Seq<char>>) -> Seq<char>
    decreases options.len(),
{
    if options.len() == 0 {
        Seq::empty()
    } else if options.len() == 1 {
        escape_choice(options[0])
    } else {
        join_choices(options.drop_last()) + seq![','] + escape_choice(options.last())
    }
}

/// The JSON text of a property's default.
pub open spec fn default_json(p: PropertyV) -> Seq<char> {
    match p.default {
        Some((json, _)) => json,
        None => Seq::empty(),
    }
}

pub open spec fn pure_boolean(p: PropertyV) -> bool {
    p.type_ == Some(TypeV::One("boolean"@))
}

/// What completing a property inserts: a choice among its values (quoted
/// for strings), else its default, else an empty string to fill, a bare
/// name for a boolean, or `name=`.
pub open spec fn property_insert_text(key: Seq<char>, p: PropertyV, options: Seq<Seq<char>>) -> Seq<char> {
    if options.len() > 0 {
        if admits_string(p) {
            key + "=\"${1|"@ + join_choices(options) + "|}\""@
        } else {
            key + "=${1|"@ + join_choices(options) + "|}"@
        }
    } else if p.default is Some {
        key + "="@ + default_json(p)
    } else if admits_string(p) {
        key + "=\"$1\""@
    } else if pure_boolean(p) {
        key
    } else {
        key + "="@
    }
}

/// The definitions of a command, in order.
pub open spec fn matching_definitions(defs: Seq<DefinitionV>, name: Seq<char>) -> Seq<DefinitionV>
    decreases defs.len(),
{
    if defs.len() == 0 {
        Seq::empty()
    } else {
        matching_definitions(defs.drop_last(), name) + if command_name(defs.last().properties) == Some(
            name,
        ) {
            seq![defs.last()]
        } else {
            Seq::empty()
        }
    }
}

pub open spec fn property_entry(key: Seq<char>, p: PropertyV, matching: Seq<DefinitionV>) -> EntryV {
    EntryV {
        label: key,
        kind: CompletionKind::Field,
        detail: p.description,
        insert_text: property_insert_text(
            key,
            p,
            move_to_front(
                options_of(matching, key),
                match p.default {
                    Some(d) => d.1,
                    None => None,
                },
            ),
        ),
        snippet: true,
        trigger_suggest: false,
    }
}

/// An entry for each property of the definition but `command` and those
/// already written.
pub open spec fn property_entries(
    props: Seq<(Seq<char>, PropertyV)>,
    matching: Seq<DefinitionV>,
    existing: Seq<Seq<char>>,
) -> Seq<EntryV>
    decreases props.len(),
{
    if props.len() == 0 {
        Seq::empty()
    } else {
        let (k, p) = props.last();
        property_entries(props.drop_last(), matching, existing) + if k == "command"@ || existing.contains(
            k,
        ) {
            Seq::empty()
        } else {
            seq![property_entry(k, p, matching)]
        }
    }
}

/// The command names of the definitions, in order.
pub open spec fn names_of(defs: Seq<DefinitionV>) -> Seq<Seq<char>>
    decreases defs.len(),
{
    if defs.len() == 0 {
        Seq::empty()
    } else {
        names_of(defs.drop_last()) + match command_name(defs.last().properties) {
            Some(n) => seq![n],
            None => Seq::empty(),
        }
    }
}

pub open spec fn command_entry(name: Seq<char>, d: DefinitionV) -> EntryV {
    EntryV {
        label: name,
        kind: CompletionKind::Function,
        detail: d.description,
        insert_text: name + " "@,
        snippet: false,
        trigger_suggest: true,
    }
}

/// An entry for each command name of the schema, the first definition of
/// each name only.
pub open spec fn command_entries(defs: Seq<DefinitionV>) -> Seq<EntryV>
    decreases defs.len(),
{
    if defs.len() == 0 {
        Seq::empty()
    } else {
        command_entries(defs.drop_last()) + match command_name(defs.last().properties) {
            Some(n) => if names_of(defs.drop_last()).contains(n) {
                Seq::empty()
            } else {
                seq![command_entry(n, defs.last())]
            },
            None => Seq::empty(),
        }
    }
}

pub open spec fn keyword_entry(name: Seq<char>) -> EntryV {
    EntryV {
        label: name,
        kind: CompletionKind::Keyword,
        detail: None,
        insert_text: name + " "@,
        snippet: false,
        trigger_suggest: true,
    }
}

/// The built-in system calls.
pub open spec fn system_call_entries() -> Seq<EntryV> {
    seq![
        keyword_entry("call"@),
        keyword_entry("goto"@),
        keyword_entry("replace"@),
        keyword_entry("leave"@),
        keyword_entry("break"@),
        keyword_entry("continue"@),
        keyword_entry("finish"@),
    ]
}

// ---------------------------------------------------------------------
// Values after `=`
// ---------------------------------------------------------------------

/// Where the run of letters, digits and `_` that ends at `j` starts.
pub open spec fn name_run_start(u: Seq<char>, j: int) -> int
    decreases j,
{
    if 0 < j <= u.len() && (alphanumeric(u[j - 1]) || u[j - 1] == '_') {
        name_run_start(u, j - 1)
    } else {
        j
    }
}

/// The name written just before the `=` that ends `t`: the run of
/// letters, digits and `_` before it, whitespace between them skipped.
pub open spec fn key_before_equals(t: Seq<char>) -> Seq<char> {
    let u = t.drop_last();
    let e = u.len() - trailing_ws(u);
    u.subrange(name_run_start(u, e), e)
}

/// The first property named `key` among the definitions.
pub open spec fn property_in(defs: Seq<DefinitionV>, key: Seq<char>) -> Option<PropertyV>
    decreases defs.len(),
{
    if defs.len() == 0 {
        None
    } else if crate::schema::property_get(defs[0].properties, key) is Some {
        crate::schema::property_get(defs[0].properties, key)
    } else {
        property_in(defs.drop_first(), key)
    }
}

/// A value of a property, quoted where the property takes strings.
pub open spec fn value_entry(v: Seq<char>, quoted: bool) -> EntryV {
    EntryV {
        label: v,
        kind: CompletionKind::Value,
        detail: None,
        insert_text: if quoted {
            "\""@ + v + "\""@
        } else {
            v
        },
        snippet: false,
        trigger_suggest: false,
    }
}

/// The completions right after `name=` in a schema command: the values
/// that the command's definitions allow for the property (its default
/// first), quoted where it takes strings; nothing where there are none.
pub open spec fn value_completion(
    prefix: Seq<char>,
    command: Option<(Seq<char>, bool, Seq<Seq<char>>)>,
    schema: Option<Seq<DefinitionV>>,
) -> Option<Seq<EntryV>> {
    let key = key_before_equals(trim_end(prefix));
    match (command, schema) {
        (Some((name, _, _)), Some(defs)) => if is_system_call(prefix, name) {
            None
        } else {
            let matching = matching_definitions(defs, name);
            match property_in(matching, key) {
                None => None,
                Some(p) => {
                    let options = move_to_front(
                        options_of(matching, key),
                        match p.default {
                            Some(d) => d.1,
                            None => None,
                        },
                    );
                    if options.len() == 0 {
                        None
                    } else {
                        Some(options.map_values(|v: Seq<char>| value_entry(v, admits_string(p))))
                    }
                },
            }
        },
        _ => None,
    }
}

/// The completions at the cursor. Right after `=`, the values of the
/// property (see `value_completion`). In a jump
/// (`#goto`, `#call`, `#replace`) the missing `paragraph=` and `story=`
/// and the document's paragraphs; in a schema command, its properties not
/// written yet; after `@` the schema's command names and after `#` the
/// system calls, while the name has no space or parenthesis.
pub open spec fn completion_spec(
    line: Seq<char>,
    col: int,
    schema: Option<Seq<DefinitionV>>,
    paragraphs: Seq<Seq<char>>,
) -> Option<Seq<EntryV>> {
    let prefix = line_prefix(line, col);
    let trimmed = trim_end(prefix);
    if trimmed.len() > 0 && trimmed.last() == '=' {
        value_completion(prefix, command_at(line, col), schema)
    } else {
        match command_at(line, col) {
            Some((name, _, existing)) => if is_system_call(prefix, name) {
                if is_jump(name) {
                    Some(named_argument_entries(existing) + paragraph_entries(paragraphs, existing))
                } else {
                    None
                }
            } else {
                match schema {
                    None => None,
                    Some(defs) => match first_definition(defs, name) {
                        None => None,
                        Some(d) => Some(property_entries(d.properties, matching_definitions(defs, name), existing)),
                    },
                }
            },
            None => match last_index(prefix, '@') {
                Some(i) => if has_space_or_paren(prefix.skip(i + 1)) {
                    None
                } else {
                    match schema {
                        None => None,
                        Some(defs) => Some(command_entries(defs)),
                    }
                },
                None => match last_index(prefix, '#') {
                    Some(i) => if has_space_or_paren(prefix.skip(i + 1)) {
                        None
                    } else {
                        Some(system_call_entries())
                    },
                    None => None,
                },
            },
        }
    }
}


// ---------------------------------------------------------------------
// Computing them
// ---------------------------------------------------------------------

fn last_occurrence_exec(s: &Vec<char>, pat: &Vec<char>) -> (r: Option<usize>)
    ensures
        r matches Some(k) ==> last_occurrence(s@, pat@) == Some(k as int),
        r is None ==> last_occurrence(s@, pat@) is None,
{
    let mut end: usize = s.len();
    assert(s@.take(end as int) =~= s@);
    loop
        invariant
            0 <= end <= s@.len(),
            last_occurrence(s@.take(end as int), pat@) == last_occurrence(s@, pat@),
        decreases end,
    {
        let ghost t = s@.take(end as int);
        if end < pat.len() {
            return None;
        }
        let start = end - pat.len();
        let mut j: usize = 0;
        let mut same = true;
        while j < pat.len()
            invariant
                0 <= j <= pat@.len(),
                start + pat@.len() == end <= s@.len(),
                same == (forall|m: int| 0 <= m < j ==> s@[start + m] == pat@[m]),
            decreases pat.len() - j,
        {
            if s[start + j] != pat[j] {
                same = false;
            }
            j += 1;
        }
        if same {
            assert(t.skip(start as int) =~= pat@);
            return Some(start);
        }
        assert(t.skip(start as int) != pat@) by {
            let m = choose|m: int| 0 <= m < pat@.len() && s@[start + m] != pat@[m];
            assert(t.skip(start as int)[m] == s@[start + m]);
        }
        if end == 0 {
            return None;
        }
        assert(t.drop_last() =~= s@.take(end - 1));
        end -= 1;
    }
}

fn chars_with(c: char, name: &String) -> (r: Vec<char>)
    ensures
        r@ == seq![c] + name@,
{
    let mut v: Vec<char> = Vec::new();
    v.push(c);
    crate::text::extend_chars(&mut v, name.as_str());
    assert(v@ =~= seq![c] + name@);
    v
}

fn has_space_or_paren_from(v: &Vec<char>, from: usize) -> (r: bool)
    requires
        from <= v@.len(),
    ensures
        r == has_space_or_paren(v@.skip(from as int)),
{
    let mut i: usize = from;
    while i < v.len()
        invariant
            from <= i <= v@.len(),
            forall|m: int| from <= m < i ==> !(is_unicode_whitespace(#[trigger] v@[m]) || v@[m] == '('),
        decreases v.len() - i,
    {
        if unicode_whitespace(v[i]) || v[i] == '(' {
            assert(v@.skip(from as int)[i - from] == v@[i as int]);
            return true;
        }
        i += 1;
    }
    assert(!has_space_or_paren(v@.skip(from as int))) by {
        if has_space_or_paren(v@.skip(from as int)) {
            let m = choose|m: int|
                0 <= m < v@.skip(from as int).len() && (is_unicode_whitespace(
                    #[trigger] v@.skip(from as int)[m],
                ) || v@.skip(from as int)[m] == '(');
            assert(v@.skip(from as int)[m] == v@[from + m]);
        }
    }
    false
}

fn text_with(a: &str, b: &str) -> (r: String)
    ensures
        r@ == a@ + b@,
{
    let mut s = String::new();
    push_str(&mut s, a);
    push_str(&mut s, b);
    assert(s@ =~= a@ + b@);
    s
}

fn entry(label: &str, kind: CompletionKind, detail: Option<String>, insert_text: String, snippet: bool, trigger_suggest: bool) -> (r: CompletionEntry)
    ensures
        r@ == (EntryV {
            label: label@,
            kind,
            detail: opt_text(detail),
            insert_text: insert_text@,
            snippet,
            trigger_suggest,
        }),
{
    CompletionEntry { label: label.to_owned(), kind, detail, insert_text, snippet, trigger_suggest }
}

fn contains_name(v: &Vec<String>, x: &str) -> (r: bool)
    ensures
        r == strings_view(v@).contains(x@),
{
    let mut i: usize = 0;
    while i < v.len()
        invariant
            0 <= i <= v@.len(),
            forall|j: int| 0 <= j < i ==> (#[trigger] v@[j])@ != x@,
        decreases v.len() - i,
    {
        if str_eq(v[i].as_str(), x) {
            assert(strings_view(v@)[i as int] == x@);
            return true;
        }
        i += 1;
    }
    assert(!strings_view(v@).contains(x@)) by {
        if strings_view(v@).contains(x@) {
            let k = choose|k: int| 0 <= k < strings_view(v@).len() && strings_view(v@)[k] == x@;
            assert(v@[k]@ == x@);
        }
    }
    false
}

fn jump_entries(existing: &Vec<String>, paragraphs: &Vec<&CstParagraph>) -> (r: Vec<CompletionEntry>)
    ensures
        entries_view(r@) == named_argument_entries(strings_view(existing@)) + paragraph_entries(
            paragraphs@.map_values(|p: &CstParagraph| cst_paragraph_view(*p).name),
            strings_view(existing@),
        ),
{
    let ghost ex = strings_view(existing@);
    let ghost names = paragraphs@.map_values(|p: &CstParagraph| cst_paragraph_view(*p).name);
    let mut out: Vec<CompletionEntry> = Vec::new();
    let has_paragraph = contains_name(existing, "paragraph");
    let has_story = contains_name(existing, "story");
    if !has_paragraph {
        out.push(entry("paragraph", CompletionKind::Field, None, text_with("paragraph", "="), false, false));
    }
    let ghost first = entries_view(out@);
    assert(first =~= if ex.contains("paragraph"@) {
        Seq::<EntryV>::empty()
    } else {
        seq![field_entry("paragraph"@)]
    });
    if !has_story {
        out.push(entry("story", CompletionKind::Field, None, text_with("story", "="), false, false));
    }
    assert(entries_view(out@) =~= named_argument_entries(ex));
    let ghost mid = entries_view(out@);
    if !has_paragraph {
        let mut k: usize = 0;
        while k < paragraphs.len()
            invariant
                0 <= k <= paragraphs@.len(),
                names == paragraphs@.map_values(|p: &CstParagraph| cst_paragraph_view(*p).name),
                entries_view(out@) == mid + names.take(k as int).map_values(|n: Seq<char>| paragraph_entry(n)),
            decreases paragraphs.len() - k,
        {
            let ghost before = entries_view(out@);
            let name = &paragraphs[k].name;
            let t1 = text_with("paragraph=\"", name.as_str());
            let t2 = text_with(t1.as_str(), "\"");
            out.push(entry(name.as_str(), CompletionKind::Reference, Some("Paragraph".to_owned()), t2, false, false));
            proof {
                assert(names[k as int] == name@);
                assert(entries_view(out@) =~= before.push(paragraph_entry(name@)));
                assert(names.take(k + 1).map_values(|n: Seq<char>| paragraph_entry(n)) =~= names.take(
                    k as int,
                ).map_values(|n: Seq<char>| paragraph_entry(n)).push(paragraph_entry(name@)));
            }
            k += 1;
            assert(entries_view(out@) =~= mid + names.take(k as int).map_values(|n: Seq<char>| paragraph_entry(n)));
        }
        assert(names.take(k as int) =~= names);
    } else {
        assert(entries_view(out@) =~= mid + Seq::<EntryV>::empty());
    }
    out
}

fn escape_choice_exec(out: &mut String, s: &str)
    ensures
        final(out)@ == old(out)@ + escape_choice(s@),
{
    let cs = chars_of(s);
    let ghost start = out@;
    let mut i: usize = 0;
    while i < cs.len()
        invariant
            0 <= i <= cs@.len(),
            cs@ == s@,
            out@ == start + escape_choice(cs@.take(i as int)),
        decreases cs.len() - i,
    {
        let c = cs[i];
        if c == '\\' || c == ',' || c == '|' {
            push_char(out, '\\');
        }
        push_char(out, c);
        proof {
            let t = cs@.take(i + 1);
            assert(t.drop_last() =~= cs@.take(i as int));
            assert(t.last() == c);
        }
        i += 1;
        assert(out@ =~= start + escape_choice(cs@.take(i as int)));
    }
    assert(cs@.take(i as int) =~= s@);
}

fn join_choices_exec(options: &Vec<String>) -> (r: String)
    ensures
        r@ == join_choices(texts_view(options@)),
{
    let ghost all = texts_view(options@);
    let mut out = String::new();
    let mut i: usize = 0;
    while i < options.len()
        invariant
            0 <= i <= options@.len(),
            all == texts_view(options@),
            out@ == join_choices(all.take(i as int)),
        decreases options.len() - i,
    {
        let ghost before = out@;
        if i > 0 {
            push_char(&mut out, ',');
        }
        escape_choice_exec(&mut out, options[i].as_str());
        proof {
            let t = all.take(i + 1);
            assert(t.drop_last() =~= all.take(i as int));
            assert(t.last() == options@[i as int]@);
            if i == 0 {
                assert(all.take(0) =~= Seq::<Seq<char>>::empty());
                assert(out@ =~= escape_choice(t[0]));
            } else {
                assert(out@ =~= before + seq![','] + escape_choice(t.last()));
            }
        }
        i += 1;
    }
    assert(all.take(i as int) =~= all);
    out
}

fn is_pure_boolean(p: &Property) -> (r: bool)
    ensures
        r == pure_boolean(p@),
{
    match &p.type_ {
        Some(StringOrArray::String(t)) => str_eq(t.as_str(), "boolean"),
        _ => false,
    }
}

fn insert_text_exec(key: &str, p: &Property, options: &Vec<String>) -> (r: String)
    ensures
        r@ == property_insert_text(key@, p@, texts_view(options@)),
{
    let is_string = p.is_string();
    if options.len() > 0 {
        let joined = join_choices_exec(options);
        if is_string {
            let a = text_with(key, "=\"${1|");
            let b = text_with(a.as_str(), joined.as_str());
            let r = text_with(b.as_str(), "|}\"");
            assert(r@ =~= key@ + "=\"${1|"@ + joined@ + "|}\""@);
            r
        } else {
            let a = text_with(key, "=${1|");
            let b = text_with(a.as_str(), joined.as_str());
            let r = text_with(b.as_str(), "|}");
            assert(r@ =~= key@ + "=${1|"@ + joined@ + "|}"@);
            r
        }
    } else {
        match &p.default {
            Some(d) => {
                let a = text_with(key, "=");
                text_with(a.as_str(), d.json.as_str())
            },
            None => {
                if is_string {
                    text_with(key, "=\"$1\"")
                } else if is_pure_boolean(p) {
                    key.to_owned()
                } else {
                    text_with(key, "=")
                }
            },
        }
    }
}

fn matching_exec<'a>(schema: &'a CommandSchema, name: &str) -> (r: Vec<&'a CommandDefinition>)
    ensures
        r@.map_values(|d: &CommandDefinition| d@) == matching_definitions(schema@, name@),
{
    let ghost all = schema@;
    let mut out: Vec<&CommandDefinition> = Vec::new();
    let mut i: usize = 0;
    assert(out@.map_values(|d: &CommandDefinition| d@) =~= matching_definitions(all.take(0), name@));
    while i < schema.commands.len()
        invariant
            0 <= i <= schema.commands@.len(),
            all == schema@,
            out@.map_values(|d: &CommandDefinition| d@) == matching_definitions(all.take(i as int), name@),
        decreases schema.commands.len() - i,
    {
        let ghost before = out@.map_values(|d: &CommandDefinition| d@);
        proof {
            assert(all.take(i + 1).drop_last() =~= all.take(i as int));
            assert(all.take(i + 1).last() == schema.commands@[i as int]@);
        }
        let n = schema.commands[i].get_command_name();
        let same = match &n {
            Some(x) => str_eq(x.as_str(), name),
            None => false,
        };
        if same {
            out.push(&schema.commands[i]);
            assert(out@.map_values(|d: &CommandDefinition| d@) =~= before.push(schema.commands@[i as int]@));
        }
        i += 1;
        assert(out@.map_values(|d: &CommandDefinition| d@) =~= matching_definitions(all.take(i as int), name@));
    }
    assert(all.take(i as int) =~= all);
    out
}

fn property_entries_exec(def: &CommandDefinition, matching: &Vec<&CommandDefinition>, existing: &Vec<String>) -> (r: Vec<CompletionEntry>)
    ensures
        entries_view(r@) == property_entries(
            def@.properties,
            matching@.map_values(|d: &CommandDefinition| d@),
            strings_view(existing@),
        ),
{
    let ghost props = def@.properties;
    let ghost ms = matching@.map_values(|d: &CommandDefinition| d@);
    let ghost ex = strings_view(existing@);
    let entries = def.properties.entries();
    let mut out: Vec<CompletionEntry> = Vec::new();
    let mut i: usize = 0;
    assert(entries_view(out@) =~= property_entries(props.take(0), ms, ex));
    while i < entries.len()
        invariant
            0 <= i <= entries@.len(),
            props == def@.properties,
            props == crate::schema::properties_view(entries@),
            ms == matching@.map_values(|d: &CommandDefinition| d@),
            ex == strings_view(existing@),
            entries_view(out@) == property_entries(props.take(i as int), ms, ex),
        decreases entries.len() - i,
    {
        let ghost before = entries_view(out@);
        let key = &entries[i].0;
        let prop = &entries[i].1;
        proof {
            assert(props.take(i + 1).drop_last() =~= props.take(i as int));
            assert(props.take(i + 1).last() == (key@, prop@));
        }
        if !str_eq(key.as_str(), "command") && !contains_name(existing, key.as_str()) {
            let wanted: Option<&crate::schema::SchemaValue> = match &prop.default {
                Some(d) => Some(d),
                None => None,
            };
            let options = CommandDefinition::collect_property_value_options(matching.as_slice(), key.as_str(), wanted);
            let text = insert_text_exec(key.as_str(), prop, &options);
            let detail: Option<String> = match &prop.description {
                Some(d) => Some(d.clone()),
                None => None,
            };
            out.push(entry(key.as_str(), CompletionKind::Field, detail, text, true, false));
            proof {
                assert(matching@.map_values(|d: &CommandDefinition| d@) == ms);
                assert(entries_view(out@) =~= before.push(property_entry(key@, prop@, ms)));
            }
        }
        i += 1;
        assert(entries_view(out@) =~= property_entries(props.take(i as int), ms, ex));
    }
    assert(props.take(i as int) =~= props);
    out
}

fn command_entries_exec(schema: &CommandSchema) -> (r: Vec<CompletionEntry>)
    ensures
        entries_view(r@) == command_entries(schema@),
{
    let ghost all = schema@;
    let mut out: Vec<CompletionEntry> = Vec::new();
    let mut seen: Vec<String> = Vec::new();
    let mut i: usize = 0;
    assert(entries_view(out@) =~= command_entries(all.take(0)));
    assert(strings_view(seen@) =~= names_of(all.take(0)));
    while i < schema.commands.len()
        invariant
            0 <= i <= schema.commands@.len(),
            all == schema@,
            entries_view(out@) == command_entries(all.take(i as int)),
            strings_view(seen@) == names_of(all.take(i as int)),
        decreases schema.commands.len() - i,
    {
        let ghost before = entries_view(out@);
        let ghost seen_before = strings_view(seen@);
        let d = &schema.commands[i];
        proof {
            assert(all.take(i + 1).drop_last() =~= all.take(i as int));
            assert(all.take(i + 1).last() == d@);
        }
        match d.get_command_name() {
            Some(n) => {
                if !contains_name(&seen, n.as_str()) {
                    let detail: Option<String> = match &d.description {
                        Some(x) => Some(x.clone()),
                        None => None,
                    };
                    let text = text_with(n.as_str(), " ");
                    out.push(entry(n.as_str(), CompletionKind::Function, detail, text, false, true));
                    assert(entries_view(out@) =~= before.push(command_entry(n@, d@)));
                }
                seen.push(n);
                assert(strings_view(seen@) =~= seen_before.push(seen@.last()@));
            },
            None => {},
        }
        i += 1;
        assert(entries_view(out@) =~= command_entries(all.take(i as int)));
        assert(strings_view(seen@) =~= names_of(all.take(i as int)));
    }
    assert(all.take(i as int) =~= all);
    out
}

fn system_call_entries_exec() -> (r: Vec<CompletionEntry>)
    ensures
        entries_view(r@) == system_call_entries(),
{
    let mut out: Vec<CompletionEntry> = Vec::new();
    out.push(entry("call", CompletionKind::Keyword, None, text_with("call", " "), false, true));
    out.push(entry("goto", CompletionKind::Keyword, None, text_with("goto", " "), false, true));
    out.push(entry("replace", CompletionKind::Keyword, None, text_with("replace", " "), false, true));
    out.push(entry("leave", CompletionKind::Keyword, None, text_with("leave", " "), false, true));
    out.push(entry("break", CompletionKind::Keyword, None, text_with("break", " "), false, true));
    out.push(entry("continue", CompletionKind::Keyword, None, text_with("continue", " "), false, true));
    out.push(entry("finish", CompletionKind::Keyword, None, text_with("finish", " "), false, true));
    assert(entries_view(out@) =~= system_call_entries());
    out
}

fn command_completion(
    prefix: &Vec<char>,
    name: &String,
    existing: &Vec<String>,
    schema: Option<&CommandSchema>,
    document: &CstRoot,
) -> (r: Option<Vec<CompletionEntry>>)
    ensures
        match (if is_system_call(prefix@, name@) {
            if is_jump(name@) {
                Some(
                    named_argument_entries(strings_view(existing@)) + paragraph_entries(
                        nodes_paragraphs(document@.nodes).map_values(|p: CstParagraphV| p.name),
                        strings_view(existing@),
                    ),
                )
            } else {
                None
            }
        } else {
            match schema {
                None => None,
                Some(sc) => match first_definition(sc@, name@) {
                    None => None,
                    Some(d) => Some(
                        property_entries(d.properties, matching_definitions(sc@, name@), strings_view(existing@)),
                    ),
                },
            }
        }) {
            Some(v) => r matches Some(x) && entries_view(x@) == v,
            None => r is None,
        },
{
    let hash_name = chars_with('#', name);
    let at_name = chars_with('@', name);
    let is_sys = match last_occurrence_exec(prefix, &hash_name) {
        None => false,
        Some(h) => match last_occurrence_exec(prefix, &at_name) {
            None => true,
            Some(a) => h > a,
        },
    };
    if is_sys {
        let n = name.as_str();
        if str_eq(n, "goto") || str_eq(n, "call") || str_eq(n, "replace") {
            let paragraphs = extract_paragraphs(document);
            assert(paragraphs@.map_values(|p: &CstParagraph| cst_paragraph_view(*p).name) =~= nodes_paragraphs(
                document@.nodes,
            ).map_values(|p: CstParagraphV| p.name));
            Some(jump_entries(existing, &paragraphs))
        } else {
            None
        }
    } else {
        match schema {
            None => None,
            Some(sc) => match crate::lsp::find_definition(sc, name.as_str()) {
                None => None,
                Some(def) => {
                    let matching = matching_exec(sc, name.as_str());
                    Some(property_entries_exec(def, &matching, existing))
                },
            },
        }
    }
}

fn name_completion(prefix: &Vec<char>, schema: Option<&CommandSchema>) -> (r: Option<Vec<CompletionEntry>>)
    ensures
        match (match last_index(prefix@, '@') {
            Some(i) => if has_space_or_paren(prefix@.skip(i + 1)) {
                None
            } else {
                match schema {
                    None => None,
                    Some(sc) => Some(command_entries(sc@)),
                }
            },
            None => match last_index(prefix@, '#') {
                Some(i) => if has_space_or_paren(prefix@.skip(i + 1)) {
                    None
                } else {
                    Some(system_call_entries())
                },
                None => None,
            },
        }) {
            Some(v) => r matches Some(x) && entries_view(x@) == v,
            None => r is None,
        },
{
    let last_at = crate::cst_helper::last_index_exec(prefix, prefix.len(), '@');
    assert(prefix@.subrange(0, prefix@.len() as int) =~= prefix@);
    match last_at {
        Some(i) => {
            if has_space_or_paren_from(prefix, i + 1) {
                None
            } else {
                match schema {
                    None => None,
                    Some(sc) => Some(command_entries_exec(sc)),
                }
            }
        },
        None => {
            let last_hash = crate::cst_helper::last_index_exec(prefix, prefix.len(), '#');
            match last_hash {
                Some(i) => {
                    if has_space_or_paren_from(prefix, i + 1) {
                        None
                    } else {
                        Some(system_call_entries_exec())
                    }
                },
                None => None,
            }
        },
    }
}

fn name_run_start_exec(u: &Vec<char>, j: usize) -> (r: usize)
    requires
        j <= u@.len(),
    ensures
        r == name_run_start(u@, j as int),
        r <= j,
{
    let mut k = j;
    while k > 0 && (crate::cst_helper::is_alphanumeric(u[k - 1]) || u[k - 1] == '_')
        invariant
            k <= j <= u@.len(),
            name_run_start(u@, k as int) == name_run_start(u@, j as int),
        decreases k,
    {
        k -= 1;
    }
    k
}

fn property_in_exec<'a>(matching: &Vec<&'a CommandDefinition>, key: &str) -> (r: Option<&'a Property>)
    ensures
        match property_in(matching@.map_values(|d: &CommandDefinition| d@), key@) {
            Some(p) => r matches Some(x) && x@ == p,
            None => r is None,
        },
{
    let ghost all = matching@.map_values(|d: &CommandDefinition| d@);
    let mut i: usize = 0;
    assert(all.skip(0) =~= all);
    while i < matching.len()
        invariant
            0 <= i <= matching@.len(),
            all == matching@.map_values(|d: &CommandDefinition| d@),
            property_in(all.skip(i as int), key@) == property_in(all, key@),
        decreases matching.len() - i,
    {
        assert(all.skip(i as int)[0] == matching@[i as int]@);
        assert(all.skip(i as int).drop_first() =~= all.skip(i + 1));
        match matching[i].properties.get(key) {
            Some(p) => {
                return Some(p);
            },
            None => {},
        }
        i += 1;
    }
    None
}

/// The completions right after `=` (see `value_completion`), with the
/// command under the cursor and the text before it, whose end trimmed is
/// its first `hi` characters.
fn value_completion_exec(
    prefix: &Vec<char>,
    hi: usize,
    command: Option<(String, bool, Vec<String>)>,
    schema: Option<&CommandSchema>,
) -> (r: Option<Vec<CompletionEntry>>)
    requires
        0 < hi <= prefix@.len(),
        trim_end(prefix@) == prefix@.take(hi as int),
        prefix@[hi - 1] == '=',
    ensures
        match value_completion(
            prefix@,
            match command {
                Some((n, p, a)) => Some((n@, p, strings_view(a@))),
                None => None,
            },
            match schema {
                Some(s) => Some(s@),
                None => None,
            },
        ) {
            Some(v) => r matches Some(x) && entries_view(x@) == v,
            None => r is None,
        },
{
    let (name, sc) = match (command, schema) {
        (Some((n, _, _)), Some(sc)) => (n, sc),
        _ => {
            return None;
        },
    };
    let hash_name = chars_with('#', &name);
    let at_name = chars_with('@', &name);
    let is_sys = match last_occurrence_exec(prefix, &hash_name) {
        None => false,
        Some(h) => match last_occurrence_exec(prefix, &at_name) {
            None => true,
            Some(a) => h > a,
        },
    };
    if is_sys {
        return None;
    }
    let mut u: Vec<char> = Vec::new();
    crate::text::extend_from(&mut u, prefix, 0, hi - 1);
    assert(u@ =~= prefix@.take(hi as int).drop_last());
    let e = skip_ws_backward(&u, 0, u.len());
    assert(u@.subrange(0, u@.len() as int) =~= u@);
    let st = name_run_start_exec(&u, e);
    let key = crate::text::string_of(u.as_slice(), st, e);
    assert(key@ == key_before_equals(trim_end(prefix@)));
    let matching = matching_exec(sc, name.as_str());
    let prop = match property_in_exec(&matching, key.as_str()) {
        Some(p) => p,
        None => {
            return None;
        },
    };
    let wanted: Option<&crate::schema::SchemaValue> = match &prop.default {
        Some(d) => Some(d),
        None => None,
    };
    let options = CommandDefinition::collect_property_value_options(matching.as_slice(), key.as_str(), wanted);
    if options.len() == 0 {
        return None;
    }
    let quoted = prop.is_string();
    let ghost ov = texts_view(options@);
    let mut out: Vec<CompletionEntry> = Vec::new();
    let mut i: usize = 0;
    while i < options.len()
        invariant
            0 <= i <= options@.len(),
            ov == texts_view(options@),
            quoted == admits_string(prop@),
            entries_view(out@) == ov.take(i as int).map_values(|v: Seq<char>| value_entry(v, quoted)),
        decreases options.len() - i,
    {
        let ghost before = entries_view(out@);
        let v = &options[i];
        let text = if quoted {
            text_with("\"", v.as_str())
        } else {
            v.clone()
        };
        let text = if quoted {
            text_with(text.as_str(), "\"")
        } else {
            text
        };
        let made = entry(v.as_str(), CompletionKind::Value, None, text, false, false);
        assert(ov[i as int] == options@[i as int]@);
        assert(made@ == value_entry(ov[i as int], quoted));
        out.push(made);
        proof {
            assert(entries_view(out@) =~= before.push(value_entry(ov[i as int], quoted)));
            assert(entries_view(out@) =~= ov.take(i + 1).map_values(|v: Seq<char>| value_entry(v, quoted)));
        }
        i += 1;
    }
    assert(ov.take(i as int) =~= ov);
    Some(out)
}

/// The completions at the cursor `col` (in characters) of `line`, with
/// the schema when there is one and the parsed document (see
/// `completion_spec`).
pub fn completion(line: &str, col: usize, schema: Option<&CommandSchema>, document: &CstRoot) -> (r: Option<Vec<CompletionEntry>>)
    requires
        line@.len() + 4 < usize::MAX,
    ensures
        match completion_spec(
            line@,
            col as int,
            match schema {
                Some(s) => Some(s@),
                None => None,
            },
            nodes_paragraphs(document@.nodes).map_values(|p: CstParagraphV| p.name),
        ) {
            Some(v) => r matches Some(x) && entries_view(x@) == v,
            None => r is None,
        },
{
    let cs = chars_of(line);
    let p: usize = if col <= cs.len() {
        col
    } else {
        cs.len()
    };
    let mut prefix: Vec<char> = Vec::new();
    crate::text::extend_from(&mut prefix, &cs, 0, p);
    assert(prefix@ =~= line_prefix(line@, col as int));
    let hi = skip_ws_backward(&prefix, 0, prefix.len());
    proof {
        assert(prefix@.subrange(0, prefix@.len() as int) =~= prefix@);
        assert(trim_end(prefix@) =~= prefix@.take(hi as int));
    }
    if hi > 0 && prefix[hi - 1] == '=' {
        let found = find_command_at_position(line, col);
        return value_completion_exec(&prefix, hi, found, schema);
    }
    match find_command_at_position(line, col) {
        Some((name, _paren, existing)) => command_completion(&prefix, &name, &existing, schema, document),
        None => name_completion(&prefix, schema),
    }
}

} // verus!
