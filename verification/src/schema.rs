//! The command schema an editor reads next to the stories: which commands
//! exist, their properties, the values each property takes and which
//! properties are required. The JSON text is read elsewhere into a
//! `SchemaNode`; the definitions are the nodes that fix a command name.
use vstd::prelude::*;

use crate::text::str_eq;

verus! {

broadcast use vstd::std_specs::vec::axiom_vec_index_decreases;

/// A JSON schema `type`: one type name or several.
pub enum StringOrArray {
    String(String),
    Array(Vec<String>),
}

pub enum TypeV {
    One(Seq<char>),
    Many(Seq<Seq<char>>),
}

/// A JSON value given as a default: its JSON text, and its content when it
/// is a JSON string.
pub struct SchemaValue {
    pub json: String,
    pub as_str: Option<String>,
}

/// A property of a command.
pub struct Property {
    pub type_: Option<StringOrArray>,
    pub description: Option<String>,
    pub const_value: Option<String>,
    pub enum_values: Option<Vec<String>>,
    pub default: Option<SchemaValue>,
    pub format: Option<String>,
}

pub struct PropertyV {
    pub type_: Option<TypeV>,
    pub description: Option<Seq<char>>,
    pub const_value: Option<Seq<char>>,
    pub enum_values: Option<Seq<Seq<char>>>,
    pub default: Option<(Seq<char>, Option<Seq<char>>)>,
    pub format: Option<Seq<char>>,
}

/// The properties of a command in the order the schema lists them.
pub struct Properties(pub Vec<(String, Property)>);

/// A command: its description, properties and required property names.
pub struct CommandDefinition {
    pub description: Option<String>,
    pub properties: Properties,
    pub required: Option<Vec<String>>,
}

pub struct DefinitionV {
    pub description: Option<Seq<char>>,
    pub properties: Seq<(Seq<char>, PropertyV)>,
    pub required: Option<Seq<Seq<char>>>,
}

/// All command definitions of a schema.
pub struct CommandSchema {
    pub commands: Vec<CommandDefinition>,
}

/// A node of the schema's JSON: properties, and nested alternatives.
pub struct SchemaNode {
    pub description: Option<String>,
    pub properties: Option<Properties>,
    pub required: Option<Vec<String>>,
    pub one_of: Vec<SchemaNode>,
    pub any_of: Vec<SchemaNode>,
    pub all_of: Vec<SchemaNode>,
}

pub struct SchemaNodeV {
    pub description: Option<Seq<char>>,
    pub properties: Option<Seq<(Seq<char>, PropertyV)>>,
    pub required: Option<Seq<Seq<char>>>,
    pub one_of: Seq<SchemaNodeV>,
    pub any_of: Seq<SchemaNodeV>,
    pub all_of: Seq<SchemaNodeV>,
}

pub open spec fn opt_text(o: Option<String>) -> Option<Seq<char>> {
    match o {
        Some(s) => Some(s@),
        None => None,
    }
}

pub open spec fn texts_view(v: Seq<String>) -> Seq<Seq<char>> {
    v.map_values(|s: String| s@)
}

pub open spec fn opt_texts(o: Option<Vec<String>>) -> Option<Seq<Seq<char>>> {
    match o {
        Some(v) => Some(texts_view(v@)),
        None => None,
    }
}

impl View for StringOrArray {
    type V = TypeV;

    open spec fn view(&self) -> TypeV {
        match self {
            StringOrArray::String(s) => TypeV::One(s@),
            StringOrArray::Array(v) => TypeV::Many(texts_view(v@)),
        }
    }
}

impl View for Property {
    type V = PropertyV;

    open spec fn view(&self) -> PropertyV {
        PropertyV {
            type_: match self.type_ {
                Some(t) => Some(t@),
                None => None,
            },
            description: opt_text(self.description),
            const_value: opt_text(self.const_value),
            enum_values: opt_texts(self.enum_values),
            default: match self.default {
                Some(d) => Some((d.json@, opt_text(d.as_str))),
                None => None,
            },
            format: opt_text(self.format),
        }
    }
}

pub open spec fn properties_view(v: Seq<(String, Property)>) -> Seq<(Seq<char>, PropertyV)> {
    v.map_values(|e: (String, Property)| (e.0@, e.1@))
}

impl View for Properties {
    type V = Seq<(Seq<char>, PropertyV)>;

    open spec fn view(&self) -> Seq<(Seq<char>, PropertyV)> {
        properties_view(self.0@)
    }
}

impl View for CommandDefinition {
    type V = DefinitionV;

    open spec fn view(&self) -> DefinitionV {
        DefinitionV {
            description: opt_text(self.description),
            properties: self.properties@,
            required: opt_texts(self.required),
        }
    }
}

pub open spec fn definitions_view(v: Seq<CommandDefinition>) -> Seq<DefinitionV> {
    v.map_values(|d: CommandDefinition| d@)
}

impl View for CommandSchema {
    type V = Seq<DefinitionV>;

    open spec fn view(&self) -> Seq<DefinitionV> {
        definitions_view(self.commands@)
    }
}

pub open spec fn node_view(n: SchemaNode) -> SchemaNodeV
    decreases n, 1nat,
{
    SchemaNodeV {
        description: opt_text(n.description),
        properties: match n.properties {
            Some(p) => Some(p@),
            None => None,
        },
        required: opt_texts(n.required),
        one_of: nodes_view(n.one_of),
        any_of: nodes_view(n.any_of),
        all_of: nodes_view(n.all_of),
    }
}

pub open spec fn nodes_view(v: Vec<SchemaNode>) -> Seq<SchemaNodeV>
    decreases v, 0nat,
{
    Seq::new(
        v@.len(),
        |i: int|
            if 0 <= i < v.len() {
                node_view(v[i])
            } else {
                SchemaNodeV {
                    description: None,
                    properties: None,
                    required: None,
                    one_of: Seq::empty(),
                    any_of: Seq::empty(),
                    all_of: Seq::empty(),
                }
            },
    )
}

impl View for SchemaNode {
    type V = SchemaNodeV;

    open spec fn view(&self) -> SchemaNodeV {
        node_view(*self)
    }
}

// ---------------------------------------------------------------------
// Lookups
// ---------------------------------------------------------------------

/// The first property with the given name.
pub open spec fn property_get(props: Seq<(Seq<char>, PropertyV)>, key: Seq<char>) -> Option<PropertyV>
    decreases props.len(),
{
    if props.len() == 0 {
        None
    } else if props[0].0 == key {
        Some(props[0].1)
    } else {
        property_get(props.drop_first(), key)
    }
}

/// The command a definition is for: the `const` of its `command` property.
pub open spec fn command_name(props: Seq<(Seq<char>, PropertyV)>) -> Option<Seq<char>> {
    match property_get(props, "command"@) {
        Some(p) => p.const_value,
        None => None,
    }
}

/// Whether a property's type admits strings.
pub open spec fn admits_string(p: PropertyV) -> bool {
    match p.type_ {
        None => false,
        Some(TypeV::One(t)) => t == "string"@,
        Some(TypeV::Many(ts)) => ts.contains("string"@),
    }
}

impl Properties {
    /// The first property with this name.
    pub fn get(&self, key: &str) -> (r: Option<&Property>)
        ensures
            match property_get(self@, key@) {
                Some(p) => r matches Some(x) && x@ == p,
                None => r is None,
            },
    {
        let ghost all = self@;
        let mut i: usize = 0;
        assert(all.skip(0) =~= all);
        while i < self.0.len()
            invariant
                0 <= i <= self.0@.len(),
                all == self@,
                property_get(all.skip(i as int), key@) == property_get(all, key@),
            decreases self.0.len() - i,
        {
            let ghost rest = all.skip(i as int);
            assert(rest.drop_first() =~= all.skip(i + 1));
            assert(rest[0] == (self.0@[i as int].0@, self.0@[i as int].1@));
            if str_eq(self.0[i].0.as_str(), key) {
                return Some(&self.0[i].1);
            }
            i += 1;
        }
        None
    }

    /// The properties, in order.
    pub fn entries(&self) -> (r: &Vec<(String, Property)>)
        ensures
            properties_view(r@) == self@,
    {
        &self.0
    }
}

impl Property {
    /// Whether the property's type admits strings.
    pub fn is_string(&self) -> (r: bool)
        ensures
            r == admits_string(self@),
    {
        match &self.type_ {
            None => false,
            Some(StringOrArray::String(t)) => str_eq(t.as_str(), "string"),
            Some(StringOrArray::Array(ts)) => {
                assert(self@.type_ == Some(TypeV::Many(texts_view(ts@))));
                let mut i: usize = 0;
                while i < ts.len()
                    invariant
                        0 <= i <= ts@.len(),
                        self@.type_ == Some(TypeV::Many(texts_view(ts@))),
                        forall|j: int| 0 <= j < i ==> (#[trigger] ts@[j])@ != "string"@,
                    decreases ts.len() - i,
                {
                    if str_eq(ts[i].as_str(), "string") {
                        assert(texts_view(ts@)[i as int] == "string"@);
                        assert(texts_view(ts@).contains("string"@));
                        return true;
                    }
                    i += 1;
                }
                assert(!texts_view(ts@).contains("string"@)) by {
                    if texts_view(ts@).contains("string"@) {
                        let k = choose|k: int| 0 <= k < texts_view(ts@).len() && texts_view(ts@)[k] == "string"@;
                        assert(ts@[k]@ == "string"@);
                    }
                }
                false
            },
        }
    }
}

impl CommandDefinition {
    /// The command this definition is for.
    pub fn get_command_name(&self) -> (r: Option<String>)
        ensures
            opt_text(r) == command_name(self@.properties),
    {
        match self.properties.get("command") {
            Some(p) => match &p.const_value {
                Some(c) => Some(c.clone()),
                None => None,
            },
            None => None,
        }
    }
}


// ---------------------------------------------------------------------
// The values a property takes
// ---------------------------------------------------------------------

pub open spec fn add_unique(list: Seq<Seq<char>>, v: Seq<char>) -> Seq<Seq<char>> {
    if list.contains(v) {
        list
    } else {
        list.push(v)
    }
}

pub open spec fn add_all_unique(list: Seq<Seq<char>>, vs: Seq<Seq<char>>) -> Seq<Seq<char>>
    decreases vs.len(),
{
    if vs.len() == 0 {
        list
    } else {
        add_unique(add_all_unique(list, vs.drop_last()), vs.last())
    }
}

/// The options of one definition's property added to `list`: its `enum`
/// values, then its `const`, each once.
pub open spec fn definition_options(list: Seq<Seq<char>>, d: DefinitionV, name: Seq<char>) -> Seq<Seq<char>> {
    match property_get(d.properties, name) {
        None => list,
        Some(p) => {
            let l1 = match p.enum_values {
                Some(vs) => add_all_unique(list, vs),
                None => list,
            };
            match p.const_value {
                Some(c) => add_unique(l1, c),
                None => l1,
            }
        },
    }
}

/// The options of a property over several definitions, in order, each once.
pub open spec fn options_of(defs: Seq<DefinitionV>, name: Seq<char>) -> Seq<Seq<char>>
    decreases defs.len(),
{
    if defs.len() == 0 {
        Seq::empty()
    } else {
        definition_options(options_of(defs.drop_last(), name), defs.last(), name)
    }
}

/// The first position of `d` in `list`.
pub open spec fn first_position(list: Seq<Seq<char>>, d: Seq<char>) -> Option<int>
    decreases list.len(),
{
    if list.len() == 0 {
        None
    } else if list[0] == d {
        Some(0)
    } else {
        match first_position(list.drop_first(), d) {
            Some(i) => Some(i + 1),
            None => None,
        }
    }
}

/// `list` with `d` moved to the front when it is there.
pub open spec fn move_to_front(list: Seq<Seq<char>>, d: Option<Seq<char>>) -> Seq<Seq<char>> {
    match d {
        None => list,
        Some(x) => match first_position(list, x) {
            Some(i) => seq![x] + list.remove(i),
            None => list,
        },
    }
}

proof fn lemma_first_position(list: Seq<Seq<char>>, d: Seq<char>, i: int)
    requires
        0 <= i <= list.len(),
        forall|j: int| 0 <= j < i ==> list[j] != d,
    ensures
        i < list.len() && list[i] == d ==> first_position(list, d) == Some(i),
        i == list.len() ==> first_position(list, d) is None,
    decreases i,
{
    if i > 0 {
        assert forall|j: int| 0 <= j < i - 1 implies list.drop_first()[j] != d by {
            assert(list.drop_first()[j] == list[j + 1]);
        }
        lemma_first_position(list.drop_first(), d, i - 1);
    }
}

fn contains_text(list: &Vec<String>, v: &str) -> (r: bool)
    ensures
        r == texts_view(list@).contains(v@),
{
    let mut i: usize = 0;
    while i < list.len()
        invariant
            0 <= i <= list@.len(),
            forall|j: int| 0 <= j < i ==> (#[trigger] list@[j])@ != v@,
        decreases list.len() - i,
    {
        if str_eq(list[i].as_str(), v) {
            assert(texts_view(list@)[i as int] == v@);
            return true;
        }
        i += 1;
    }
    assert(!texts_view(list@).contains(v@)) by {
        if texts_view(list@).contains(v@) {
            let k = choose|k: int| 0 <= k < texts_view(list@).len() && texts_view(list@)[k] == v@;
            assert(list@[k]@ == v@);
        }
    }
    false
}

fn push_unique(list: &mut Vec<String>, v: &String)
    ensures
        texts_view(final(list)@) == add_unique(texts_view(old(list)@), v@),
{
    if !contains_text(list, v.as_str()) {
        list.push(v.clone());
        assert(texts_view(list@) =~= texts_view(old(list)@).push(v@));
    }
}

fn push_definition_options(list: &mut Vec<String>, d: &CommandDefinition, name: &str)
    ensures
        texts_view(final(list)@) == definition_options(texts_view(old(list)@), d@, name@),
{
    match d.properties.get(name) {
        None => {},
        Some(p) => {
            match &p.enum_values {
                Some(vs) => {
                    let ghost start = texts_view(list@);
                    let mut i: usize = 0;
                    while i < vs.len()
                        invariant
                            0 <= i <= vs@.len(),
                            texts_view(list@) == add_all_unique(start, texts_view(vs@).take(i as int)),
                        decreases vs.len() - i,
                    {
                        push_unique(list, &vs[i]);
                        proof {
                            assert(texts_view(vs@).take(i + 1).drop_last() =~= texts_view(vs@).take(i as int));
                        }
                        i += 1;
                    }
                    assert(texts_view(vs@).take(i as int) =~= texts_view(vs@));
                },
                None => {},
            }
            match &p.const_value {
                Some(c) => push_unique(list, c),
                None => {},
            }
        },
    }
}

impl CommandDefinition {
    /// The values a property takes over several definitions: each one's
    /// `enum` values and `const`, in order and each once, with the default
    /// (when it is a string among them) moved to the front.
    pub fn collect_property_value_options(
        definitions: &[&CommandDefinition],
        property_name: &str,
        default: Option<&SchemaValue>,
    ) -> (r: Vec<String>)
        ensures
            texts_view(r@) == move_to_front(
                options_of(definitions@.map_values(|d: &CommandDefinition| d@), property_name@),
                match default {
                    Some(d) => opt_text(d.as_str),
                    None => None,
                },
            ),
    {
        let ghost defs = definitions@.map_values(|d: &CommandDefinition| d@);
        let mut list: Vec<String> = Vec::new();
        let mut i: usize = 0;
        assert(texts_view(list@) =~= Seq::<Seq<char>>::empty());
        while i < definitions.len()
            invariant
                0 <= i <= definitions@.len(),
                defs == definitions@.map_values(|d: &CommandDefinition| d@),
                texts_view(list@) == options_of(defs.take(i as int), property_name@),
            decreases definitions.len() - i,
        {
            push_definition_options(&mut list, definitions[i], property_name);
            proof {
                assert(defs.take(i + 1).drop_last() =~= defs.take(i as int));
            }
            i += 1;
        }
        assert(defs.take(i as int) =~= defs);
        let ghost all = texts_view(list@);
        let wanted: Option<&String> = match default {
            Some(d) => match &d.as_str {
                Some(s) => Some(s),
                None => None,
            },
            None => None,
        };
        match wanted {
            None => list,
            Some(w) => {
                let mut k: usize = 0;
                while k < list.len()
                    invariant
                        0 <= k <= list@.len(),
                        all == texts_view(list@),
                        all == options_of(defs, property_name@),
                        defs == definitions@.map_values(|d: &CommandDefinition| d@),
                        match default {
                            Some(d) => opt_text(d.as_str),
                            None => None,
                        } == Some(w@),
                        forall|j: int| 0 <= j < k ==> (#[trigger] all[j]) != w@,
                    decreases list.len() - k,
                {
                    if str_eq(list[k].as_str(), w.as_str()) {
                        proof {
                            lemma_first_position(all, w@, k as int);
                        }
                        let x = list.remove(k);
                        list.insert(0, x);
                        assert(texts_view(list@) =~= seq![w@] + all.remove(k as int));
                        return list;
                    }
                    k += 1;
                }
                proof {
                    lemma_first_position(all, w@, k as int);
                }
                list
            },
        }
    }
}

// ---------------------------------------------------------------------
// Definitions from the schema's tree
// ---------------------------------------------------------------------

/// The definition a node gives by itself: one when it has properties whose
/// `command` property fixes a name.
pub open spec fn own_definitions(n: SchemaNodeV) -> Seq<DefinitionV> {
    match n.properties {
        Some(p) => if command_name(p) is Some {
            seq![DefinitionV { description: n.description, properties: p, required: n.required }]
        } else {
            Seq::empty()
        },
        None => Seq::empty(),
    }
}

/// The definitions of a node: its own, then those under `oneOf`, `anyOf`
/// and `allOf`, in order.
pub open spec fn node_definitions(n: SchemaNodeV) -> Seq<DefinitionV>
    decreases n, 1nat,
{
    own_definitions(n) + nodes_definitions(n.one_of) + nodes_definitions(n.any_of) + nodes_definitions(
        n.all_of,
    )
}

pub open spec fn nodes_definitions(ns: Seq<SchemaNodeV>) -> Seq<DefinitionV>
    decreases ns, 0nat,
{
    if ns.len() == 0 {
        Seq::empty()
    } else {
        nodes_definitions(ns.drop_last()) + node_definitions(ns.last())
    }
}

impl SchemaNode {
    /// Adds the definitions of this node (see `node_definitions`).
    pub fn collect_command_definitions(self, commands: &mut Vec<CommandDefinition>)
        ensures
            definitions_view(final(commands)@) == definitions_view(old(commands)@) + node_definitions(self@),
        decreases self,
    {
        let ghost me = self@;
        let ghost s0 = self;
        let SchemaNode { description, properties, required, one_of, any_of, all_of } = self;
        let ghost start = definitions_view(commands@);
        match properties {
            Some(p) => {
                let named = match p.get("command") {
                    Some(c) => c.const_value.is_some(),
                    None => false,
                };
                if named {
                    commands.push(CommandDefinition { description, properties: p, required });
                    assert(definitions_view(commands@) =~= start + own_definitions(me));
                } else {
                    assert(definitions_view(commands@) =~= start + own_definitions(me));
                }
            },
            None => {
                assert(definitions_view(commands@) =~= start + own_definitions(me));
            },
        }
        proof {
            assert(decreases_to!(s0 => s0.one_of));
            assert(decreases_to!(s0 => s0.any_of));
            assert(decreases_to!(s0 => s0.all_of));
        }
        collect_nodes(one_of, commands);
        collect_nodes(any_of, commands);
        collect_nodes(all_of, commands);
        assert(definitions_view(commands@) =~= start + node_definitions(me));
    }
}

fn collect_nodes(nodes: Vec<SchemaNode>, commands: &mut Vec<CommandDefinition>)
    ensures
        definitions_view(final(commands)@) == definitions_view(old(commands)@) + nodes_definitions(
            nodes_view(nodes),
        ),
    decreases nodes,
{
    let ghost all = nodes_view(nodes);
    let ghost start = definitions_view(commands@);
    let mut rest = nodes;
    let mut k: usize = 0;
    assert(nodes@.skip(0) =~= nodes@);
    while rest.len() > 0
        invariant
            all == nodes_view(nodes),
            k + rest@.len() == all.len(),
            nodes_view(rest) == all.skip(k as int),
            rest@ == nodes@.skip(k as int),
            definitions_view(commands@) == start + nodes_definitions(all.take(k as int)),
        decreases rest.len(),
    {
        let ghost rv = rest;
        let first = rest.remove(0);
        proof {
            assert(nodes_view(rv)[0] == node_view(first));
            assert forall|j: int| 0 <= j < rest@.len() implies nodes_view(rest)[j] == all.skip(k + 1)[j] by {
                assert(rest@[j] == rv@[j + 1]);
                assert(nodes_view(rv)[j + 1] == node_view(rv@[j + 1]));
            }
            assert(nodes_view(rest) =~= all.skip(k + 1));
            assert(all.take(k + 1).drop_last() =~= all.take(k as int));
            assert(all.take(k + 1).last() == node_view(first));
            assert(first == nodes@[k as int]);
            assert(decreases_to!(nodes => nodes@[k as int]));
            assert(rest@ =~= nodes@.skip(k + 1));
        }
        first.collect_command_definitions(commands);
        k += 1;
    }
    assert(all.take(k as int) =~= all);
}

impl CommandSchema {
    /// The schema that a JSON tree describes: all its command definitions.
    pub fn from_node(node: SchemaNode) -> (r: CommandSchema)
        ensures
            r@ == node_definitions(node@),
    {
        let mut commands: Vec<CommandDefinition> = Vec::new();
        assert(definitions_view(commands@) =~= Seq::<DefinitionV>::empty());
        node.collect_command_definitions(&mut commands);
        assert(definitions_view(commands@) =~= node_definitions(node@));
        CommandSchema { commands }
    }
}

} // verus!
