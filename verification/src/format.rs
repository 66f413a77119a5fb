//! The abstract syntax of a story: paragraphs, blocks and the lines in
//! them, with a mathematical view of each type that the contracts use.
use vstd::prelude::*;

use crate::error::RuntimeError;
use crate::text::str_eq;

verus! {

broadcast use vstd::std_specs::vec::axiom_vec_index_decreases;

/// A story, usually read from one file.
pub struct Story {
    pub name: String,
    pub paragraphs: Vec<Paragraph>,
}

/// A named paragraph of a story, with its parameters and root block.
pub struct Paragraph {
    pub name: String,
    pub parameters: Vec<Parameter>,
    pub block: Block,
}

/// A paragraph parameter, possibly with a default value.
pub struct Parameter {
    pub name: String,
    pub default_value: Option<Literal>,
}

/// A named argument of a command or system call.
pub struct Argument {
    pub name: String,
    pub value: RValue,
}

/// A literal value. A floating-point number is held as the bit pattern
/// of its IEEE-754 binary64 value; an object as its key/value entries.
pub enum Literal {
    Null,
    String(String),
    Integer(i64),
    Float(u64),
    Boolean(bool),
    Array(Vec<Literal>),
    Object(Vec<(String, Literal)>),
}

/// A dotted variable path such as `a.b.c`.
pub struct Variable {
    pub chain: Vec<String>,
}

/// A value that is either written out or read from a variable.
pub enum RValue {
    Literal(Literal),
    Variable(Variable),
}

/// A block of child lines.
pub struct Block {
    pub children: Vec<Child>,
}

/// A line of a block with the attributes written before it.
pub struct Child {
    pub attributes: Vec<Attribute>,
    pub content: ChildContent,
}

/// What a line of a block holds.
pub enum ChildContent {
    Block(Block),
    TextLine(LeadingText, Text, TailingText),
    CommandLine(CommandLine),
    SystemCallLine(SystemCallLine),
    EmbeddedCode(String),
}

/// The part of a text line in brackets, usually a speaker.
pub enum LeadingText {
    Absent,
    Text(String),
    TemplateLiteral(TemplateLiteral),
}

/// The main text of a text line.
pub enum Text {
    Absent,
    Text(String),
    TemplateLiteral(TemplateLiteral),
}

/// The marker after `#` at the end of a text line.
pub enum TailingText {
    Absent,
    Text(String),
}

/// A template string made of text and interpolated values.
pub struct TemplateLiteral {
    pub parts: Vec<TemplateLiteralPart>,
}

/// A piece of a template string.
pub enum TemplateLiteralPart {
    Text(String),
    Value(RValue),
}

/// A command line `@name args`.
pub struct CommandLine {
    pub command: String,
    pub arguments: Vec<Argument>,
}

/// A system call line `#name args`.
pub struct SystemCallLine {
    pub command: String,
    pub arguments: Vec<Argument>,
}

/// An attribute `#[keyword(condition)]` written before a line.
pub struct Attribute {
    pub keyword: String,
    pub condition: Option<String>,
}

// ---------------------------------------------------------------------
// Mathematical views
// ---------------------------------------------------------------------

pub enum LiteralV {
    Null,
    Str(Seq<char>),
    Integer(i64),
    Float(u64),
    Boolean(bool),
    Array(Seq<LiteralV>),
    Object(Seq<(Seq<char>, LiteralV)>),
}

pub enum RValueV {
    Literal(LiteralV),
    Variable(Seq<Seq<char>>),
}

pub struct ArgumentV {
    pub name: Seq<char>,
    pub value: RValueV,
}

pub struct ParameterV {
    pub name: Seq<char>,
    pub default_value: Option<LiteralV>,
}

pub struct AttributeV {
    pub keyword: Seq<char>,
    pub condition: Option<Seq<char>>,
}

pub enum TemplatePartV {
    Text(Seq<char>),
    Value(RValueV),
}

pub enum LeadingTextV {
    Absent,
    Text(Seq<char>),
    Template(Seq<TemplatePartV>),
}

pub enum TextV {
    Absent,
    Text(Seq<char>),
    Template(Seq<TemplatePartV>),
}

pub enum TailingTextV {
    Absent,
    Text(Seq<char>),
}

pub struct CallV {
    pub command: Seq<char>,
    pub arguments: Seq<ArgumentV>,
}

pub enum ChildContentV {
    Block(Seq<ChildV>),
    TextLine(LeadingTextV, TextV, TailingTextV),
    CommandLine(CallV),
    SystemCallLine(CallV),
    EmbeddedCode(Seq<char>),
}

pub struct ChildV {
    pub attributes: Seq<AttributeV>,
    pub content: ChildContentV,
}

pub struct ParagraphV {
    pub name: Seq<char>,
    pub parameters: Seq<ParameterV>,
    pub block: Seq<ChildV>,
}

pub struct StoryV {
    pub name: Seq<char>,
    pub paragraphs: Seq<ParagraphV>,
}

pub open spec fn strings_view(v: Seq<String>) -> Seq<Seq<char>> {
    v.map_values(|s: String| s@)
}

pub open spec fn literal_view(l: Literal) -> LiteralV
    decreases l,
{
    match l {
        Literal::Null => LiteralV::Null,
        Literal::String(s) => LiteralV::Str(s@),
        Literal::Integer(i) => LiteralV::Integer(i),
        Literal::Float(b) => LiteralV::Float(b),
        Literal::Boolean(b) => LiteralV::Boolean(b),
        Literal::Array(v) => LiteralV::Array(literals_view(v)),
        Literal::Object(v) => LiteralV::Object(entries_view(v)),
    }
}

pub open spec fn literals_view(v: Vec<Literal>) -> Seq<LiteralV>
    decreases v,
{
    Seq::new(
        v@.len(),
        |i: int|
            if 0 <= i < v.len() {
                literal_view(v[i])
            } else {
                LiteralV::Null
            },
    )
}

pub open spec fn entries_view(v: Vec<(String, Literal)>) -> Seq<(Seq<char>, LiteralV)>
    decreases v,
{
    Seq::new(
        v@.len(),
        |i: int|
            if 0 <= i < v.len() {
                (v[i].0@, literal_view(v[i].1))
            } else {
                (Seq::empty(), LiteralV::Null)
            },
    )
}

impl View for Literal {
    type V = LiteralV;

    open spec fn view(&self) -> LiteralV {
        literal_view(*self)
    }
}

impl View for Variable {
    type V = Seq<Seq<char>>;

    open spec fn view(&self) -> Seq<Seq<char>> {
        strings_view(self.chain@)
    }
}

impl View for RValue {
    type V = RValueV;

    open spec fn view(&self) -> RValueV {
        match self {
            RValue::Literal(l) => RValueV::Literal(l@),
            RValue::Variable(v) => RValueV::Variable(v@),
        }
    }
}

impl View for Argument {
    type V = ArgumentV;

    open spec fn view(&self) -> ArgumentV {
        ArgumentV { name: self.name@, value: self.value@ }
    }
}

pub open spec fn arguments_view(v: Seq<Argument>) -> Seq<ArgumentV> {
    v.map_values(|a: Argument| a@)
}

impl View for Parameter {
    type V = ParameterV;

    open spec fn view(&self) -> ParameterV {
        ParameterV {
            name: self.name@,
            default_value: match self.default_value {
                Some(l) => Some(l@),
                None => None,
            },
        }
    }
}

impl View for Attribute {
    type V = AttributeV;

    open spec fn view(&self) -> AttributeV {
        AttributeV {
            keyword: self.keyword@,
            condition: match self.condition {
                Some(c) => Some(c@),
                None => None,
            },
        }
    }
}

impl View for TemplateLiteralPart {
    type V = TemplatePartV;

    open spec fn view(&self) -> TemplatePartV {
        match self {
            TemplateLiteralPart::Text(s) => TemplatePartV::Text(s@),
            TemplateLiteralPart::Value(v) => TemplatePartV::Value(v@),
        }
    }
}

impl View for TemplateLiteral {
    type V = Seq<TemplatePartV>;

    open spec fn view(&self) -> Seq<TemplatePartV> {
        self.parts@.map_values(|p: TemplateLiteralPart| p@)
    }
}

impl View for LeadingText {
    type V = LeadingTextV;

    open spec fn view(&self) -> LeadingTextV {
        match self {
            LeadingText::Absent => LeadingTextV::Absent,
            LeadingText::Text(s) => LeadingTextV::Text(s@),
            LeadingText::TemplateLiteral(t) => LeadingTextV::Template(t@),
        }
    }
}

impl View for Text {
    type V = TextV;

    open spec fn view(&self) -> TextV {
        match self {
            Text::Absent => TextV::Absent,
            Text::Text(s) => TextV::Text(s@),
            Text::TemplateLiteral(t) => TextV::Template(t@),
        }
    }
}

impl View for TailingText {
    type V = TailingTextV;

    open spec fn view(&self) -> TailingTextV {
        match self {
            TailingText::Absent => TailingTextV::Absent,
            TailingText::Text(s) => TailingTextV::Text(s@),
        }
    }
}

impl View for CommandLine {
    type V = CallV;

    open spec fn view(&self) -> CallV {
        CallV { command: self.command@, arguments: arguments_view(self.arguments@) }
    }
}

impl View for SystemCallLine {
    type V = CallV;

    open spec fn view(&self) -> CallV {
        CallV { command: self.command@, arguments: arguments_view(self.arguments@) }
    }
}

pub open spec fn block_view(b: Block) -> Seq<ChildV>
    decreases b,
{
    children_view(b.children)
}

pub open spec fn children_view(v: Vec<Child>) -> Seq<ChildV>
    decreases v,
{
    Seq::new(
        v@.len(),
        |i: int|
            if 0 <= i < v.len() {
                child_view(v[i])
            } else {
                ChildV { attributes: Seq::empty(), content: ChildContentV::EmbeddedCode(Seq::empty()) }
            },
    )
}

pub open spec fn child_view(c: Child) -> ChildV
    decreases c,
{
    ChildV {
        attributes: c.attributes@.map_values(|a: Attribute| a@),
        content: match c.content {
            ChildContent::Block(b) => ChildContentV::Block(block_view(b)),
            ChildContent::TextLine(l, t, g) => ChildContentV::TextLine(l@, t@, g@),
            ChildContent::CommandLine(cl) => ChildContentV::CommandLine(cl@),
            ChildContent::SystemCallLine(sl) => ChildContentV::SystemCallLine(sl@),
            ChildContent::EmbeddedCode(s) => ChildContentV::EmbeddedCode(s@),
        },
    }
}

impl View for Block {
    type V = Seq<ChildV>;

    open spec fn view(&self) -> Seq<ChildV> {
        block_view(*self)
    }
}

impl View for Child {
    type V = ChildV;

    open spec fn view(&self) -> ChildV {
        child_view(*self)
    }
}

impl View for Paragraph {
    type V = ParagraphV;

    open spec fn view(&self) -> ParagraphV {
        ParagraphV {
            name: self.name@,
            parameters: self.parameters@.map_values(|p: Parameter| p@),
            block: self.block@,
        }
    }
}

impl View for Story {
    type V = StoryV;

    open spec fn view(&self) -> StoryV {
        StoryV { name: self.name@, paragraphs: self.paragraphs@.map_values(|p: Paragraph| p@) }
    }
}

// ---------------------------------------------------------------------
// Copies whose views equal those of the value copied
// ---------------------------------------------------------------------

impl Literal {
    /// A copy of the literal.
    pub fn copy(&self) -> (r: Literal)
        ensures
            r@ == self@,
        decreases self,
    {
        match self {
            Literal::Null => Literal::Null,
            Literal::String(s) => Literal::String(s.clone()),
            Literal::Integer(i) => Literal::Integer(*i),
            Literal::Float(b) => Literal::Float(*b),
            Literal::Boolean(b) => Literal::Boolean(*b),
            Literal::Array(v) => {
                let mut out: Vec<Literal> = Vec::new();
                let mut i: usize = 0;
                while i < v.len()
                    invariant
                        0 <= i <= v.len(),
                        out@.len() == i,
                        *self == Literal::Array(*v),
                        forall|j: int| 0 <= j < i ==> literal_view(#[trigger] out@[j]) == literal_view(v@[j]),
                    decreases v.len() - i,
                {
                    assert(decreases_to!(*self => (*self)->Array_0));
                    assert(decreases_to!(*v => v[i as int]));
                    let c = v[i].copy();
                    out.push(c);
                    i += 1;
                }
                assert(literals_view(out) =~= literals_view(*v));
                Literal::Array(out)
            },
            Literal::Object(v) => {
                let mut out: Vec<(String, Literal)> = Vec::new();
                let mut i: usize = 0;
                while i < v.len()
                    invariant
                        0 <= i <= v.len(),
                        out@.len() == i,
                        *self == Literal::Object(*v),
                        forall|j: int|
                            0 <= j < i ==> (#[trigger] out@[j]).0@ == v@[j].0@ && literal_view(out@[j].1) == literal_view(v@[j].1),
                    decreases v.len() - i,
                {
                    assert(decreases_to!(*self => (*self)->Object_0));
                    assert(decreases_to!(*v => v[i as int]));
                    assert(decreases_to!(v[i as int] => v[i as int].1));
                    let k = v[i].0.clone();
                    let c = v[i].1.copy();
                    out.push((k, c));
                    i += 1;
                }
                assert(entries_view(out) =~= entries_view(*v));
                Literal::Object(out)
            },
        }
    }
}

impl Variable {
    /// A copy of the variable path.
    pub fn copy(&self) -> (r: Variable)
        ensures
            r@ == self@,
    {
        let mut out: Vec<String> = Vec::new();
        let mut i: usize = 0;
        while i < self.chain.len()
            invariant
                0 <= i <= self.chain.len(),
                out@.len() == i,
                forall|j: int| 0 <= j < i ==> (#[trigger] out@[j])@ == self.chain@[j]@,
            decreases self.chain.len() - i,
        {
            out.push(self.chain[i].clone());
            i += 1;
        }
        let r = Variable { chain: out };
        assert(r@ =~= self@);
        r
    }
}

impl RValue {
    /// A copy of the value.
    pub fn copy(&self) -> (r: RValue)
        ensures
            r@ == self@,
    {
        match self {
            RValue::Literal(l) => RValue::Literal(l.copy()),
            RValue::Variable(v) => RValue::Variable(v.copy()),
        }
    }
}

impl Argument {
    /// A copy of the argument.
    pub fn copy(&self) -> (r: Argument)
        ensures
            r@ == self@,
    {
        Argument { name: self.name.clone(), value: self.value.copy() }
    }
}

fn copy_arguments(v: &Vec<Argument>) -> (r: Vec<Argument>)
    ensures
        arguments_view(r@) == arguments_view(v@),
{
    let mut out: Vec<Argument> = Vec::new();
    let mut i: usize = 0;
    while i < v.len()
        invariant
            0 <= i <= v@.len(),
            out@.len() == i,
            forall|j: int| 0 <= j < i ==> (#[trigger] out@[j])@ == v@[j]@,
        decreases v.len() - i,
    {
        out.push(v[i].copy());
        i += 1;
    }
    assert(arguments_view(out@) =~= arguments_view(v@));
    out
}

impl Attribute {
    /// A copy of the attribute.
    pub fn copy(&self) -> (r: Attribute)
        ensures
            r@ == self@,
    {
        Attribute {
            keyword: self.keyword.clone(),
            condition: match &self.condition {
                Some(c) => Some(c.clone()),
                None => None,
            },
        }
    }
}

impl TemplateLiteral {
    /// A copy of the template.
    pub fn copy(&self) -> (r: TemplateLiteral)
        ensures
            r@ == self@,
    {
        let mut out: Vec<TemplateLiteralPart> = Vec::new();
        let mut i: usize = 0;
        while i < self.parts.len()
            invariant
                0 <= i <= self.parts@.len(),
                out@.len() == i,
                forall|j: int| 0 <= j < i ==> (#[trigger] out@[j])@ == self.parts@[j]@,
            decreases self.parts.len() - i,
        {
            let p = match &self.parts[i] {
                TemplateLiteralPart::Text(t) => TemplateLiteralPart::Text(t.clone()),
                TemplateLiteralPart::Value(v) => TemplateLiteralPart::Value(v.copy()),
            };
            out.push(p);
            i += 1;
        }
        let r = TemplateLiteral { parts: out };
        assert(r@ =~= self@);
        r
    }
}

impl Block {
    /// A copy of the block.
    pub fn copy(&self) -> (r: Block)
        ensures
            r@ == self@,
        decreases self, 1nat,
    {
        let mut out: Vec<Child> = Vec::new();
        let mut i: usize = 0;
        while i < self.children.len()
            invariant
                0 <= i <= self.children@.len(),
                out@.len() == i,
                forall|j: int| 0 <= j < i ==> (#[trigger] out@[j])@ == self.children@[j]@,
            decreases self.children.len() - i,
        {
            assert(decreases_to!(*self => self.children));
            let c = self.children[i].copy();
            out.push(c);
            i += 1;
        }
        let r = Block { children: out };
        assert(block_view(r) =~= block_view(*self));
        r
    }
}

impl Child {
    /// A copy of the line.
    pub fn copy(&self) -> (r: Child)
        ensures
            r@ == self@,
        decreases self, 0nat,
    {
        let mut attributes: Vec<Attribute> = Vec::new();
        let mut i: usize = 0;
        while i < self.attributes.len()
            invariant
                0 <= i <= self.attributes@.len(),
                attributes@.len() == i,
                forall|j: int| 0 <= j < i ==> (#[trigger] attributes@[j])@ == self.attributes@[j]@,
            decreases self.attributes.len() - i,
        {
            attributes.push(self.attributes[i].copy());
            i += 1;
        }
        assert(attributes@.map_values(|a: Attribute| a@) =~= self.attributes@.map_values(
            |a: Attribute| a@,
        ));
        let content = match &self.content {
            ChildContent::Block(b) => {
                assert(decreases_to!(*self => self.content));
                ChildContent::Block(b.copy())
            },
            ChildContent::TextLine(l, t, g) => ChildContent::TextLine(
                match l {
                    LeadingText::Absent => LeadingText::Absent,
                    LeadingText::Text(x) => LeadingText::Text(x.clone()),
                    LeadingText::TemplateLiteral(x) => LeadingText::TemplateLiteral(x.copy()),
                },
                match t {
                    Text::Absent => Text::Absent,
                    Text::Text(x) => Text::Text(x.clone()),
                    Text::TemplateLiteral(x) => Text::TemplateLiteral(x.copy()),
                },
                match g {
                    TailingText::Absent => TailingText::Absent,
                    TailingText::Text(x) => TailingText::Text(x.clone()),
                },
            ),
            ChildContent::CommandLine(cl) => ChildContent::CommandLine(
                CommandLine { command: cl.command.clone(), arguments: copy_arguments(&cl.arguments) },
            ),
            ChildContent::SystemCallLine(sl) => ChildContent::SystemCallLine(
                SystemCallLine {
                    command: sl.command.clone(),
                    arguments: copy_arguments(&sl.arguments),
                },
            ),
            ChildContent::EmbeddedCode(code) => ChildContent::EmbeddedCode(code.clone()),
        };
        let r = Child { attributes, content };
        assert(child_view(r) =~= child_view(*self));
        r
    }
}

impl Paragraph {
    /// A copy of the paragraph.
    pub fn copy(&self) -> (r: Paragraph)
        ensures
            r@ == self@,
    {
        let mut parameters: Vec<Parameter> = Vec::new();
        let mut i: usize = 0;
        while i < self.parameters.len()
            invariant
                0 <= i <= self.parameters@.len(),
                parameters@.len() == i,
                forall|j: int| 0 <= j < i ==> (#[trigger] parameters@[j])@ == self.parameters@[j]@,
            decreases self.parameters.len() - i,
        {
            let q = &self.parameters[i];
            parameters.push(
                Parameter {
                    name: q.name.clone(),
                    default_value: match &q.default_value {
                        Some(d) => Some(d.copy()),
                        None => None,
                    },
                },
            );
            i += 1;
        }
        assert(parameters@.map_values(|p: Parameter| p@) =~= self.parameters@.map_values(
            |p: Parameter| p@,
        ));
        let r = Paragraph { name: self.name.clone(), parameters, block: self.block.copy() };
        assert(r@ =~= self@);
        r
    }
}

// ---------------------------------------------------------------------
// Accessors
// ---------------------------------------------------------------------

impl Literal {
    pub fn is_null(&self) -> (r: bool)
        ensures
            r == (*self is Null),
    {
        matches!(self, Literal::Null)
    }

    pub fn is_string(&self) -> (r: bool)
        ensures
            r == (*self is String),
    {
        matches!(self, Literal::String(_))
    }

    pub fn is_integer(&self) -> (r: bool)
        ensures
            r == (*self is Integer),
    {
        matches!(self, Literal::Integer(_))
    }

    pub fn is_float(&self) -> (r: bool)
        ensures
            r == (*self is Float),
    {
        matches!(self, Literal::Float(_))
    }

    pub fn is_boolean(&self) -> (r: bool)
        ensures
            r == (*self is Boolean),
    {
        matches!(self, Literal::Boolean(_))
    }

    pub fn is_array(&self) -> (r: bool)
        ensures
            r == (*self is Array),
    {
        matches!(self, Literal::Array(_))
    }

    pub fn is_object(&self) -> (r: bool)
        ensures
            r == (*self is Object),
    {
        matches!(self, Literal::Object(_))
    }

    /// The string held, or `NotAString`.
    pub fn as_string(&self) -> (r: Result<&String, RuntimeError>)
        ensures
            *self is String ==> r == Ok::<&String, RuntimeError>(&self->String_0),
            !(*self is String) ==> r == Err::<&String, RuntimeError>(RuntimeError::NotAString),
    {
        if let Literal::String(s) = self {
            Ok(s)
        } else {
            Err(RuntimeError::NotAString)
        }
    }

    /// The integer held, or `NotAInteger`.
    pub fn as_integer(&self) -> (r: Result<&i64, RuntimeError>)
        ensures
            *self is Integer ==> r == Ok::<&i64, RuntimeError>(&self->Integer_0),
            !(*self is Integer) ==> r == Err::<&i64, RuntimeError>(RuntimeError::NotAInteger),
    {
        if let Literal::Integer(i) = self {
            Ok(i)
        } else {
            Err(RuntimeError::NotAInteger)
        }
    }

    /// The bit pattern of the floating-point number held, or `NotAFloat`.
    pub fn as_float(&self) -> (r: Result<&u64, RuntimeError>)
        ensures
            *self is Float ==> r == Ok::<&u64, RuntimeError>(&self->Float_0),
            !(*self is Float) ==> r == Err::<&u64, RuntimeError>(RuntimeError::NotAFloat),
    {
        if let Literal::Float(f) = self {
            Ok(f)
        } else {
            Err(RuntimeError::NotAFloat)
        }
    }

    /// The boolean held, or `NotABoolean`.
    pub fn as_boolean(&self) -> (r: Result<&bool, RuntimeError>)
        ensures
            *self is Boolean ==> r == Ok::<&bool, RuntimeError>(&self->Boolean_0),
            !(*self is Boolean) ==> r == Err::<&bool, RuntimeError>(RuntimeError::NotABoolean),
    {
        if let Literal::Boolean(b) = self {
            Ok(b)
        } else {
            Err(RuntimeError::NotABoolean)
        }
    }

    /// The elements held, or `NotAArray`.
    pub fn as_array(&self) -> (r: Result<&Vec<Literal>, RuntimeError>)
        ensures
            *self is Array ==> r == Ok::<&Vec<Literal>, RuntimeError>(&self->Array_0),
            !(*self is Array) ==> r == Err::<&Vec<Literal>, RuntimeError>(RuntimeError::NotAArray),
    {
        if let Literal::Array(a) = self {
            Ok(a)
        } else {
            Err(RuntimeError::NotAArray)
        }
    }

    /// The entries held, or `NotAObject`.
    pub fn as_object(&self) -> (r: Result<&Vec<(String, Literal)>, RuntimeError>)
        ensures
            *self is Object ==> r == Ok::<&Vec<(String, Literal)>, RuntimeError>(&self->Object_0),
            !(*self is Object) ==> r == Err::<&Vec<(String, Literal)>, RuntimeError>(
                RuntimeError::NotAObject,
            ),
    {
        if let Literal::Object(o) = self {
            Ok(o)
        } else {
            Err(RuntimeError::NotAObject)
        }
    }

    /// The string held, to change it, or `NotAString`.
    pub fn as_string_mut(&mut self) -> (r: Result<&mut String, RuntimeError>)
        ensures
            *old(self) is String ==> match r {
                Ok(x) => *x == old(self)->String_0 && *final(self) == Literal::String(*final(x)),
                Err(_) => false,
            },
            !(*old(self) is String) ==> {
                &&& r matches Err(e) && e == RuntimeError::NotAString
                &&& *final(self) == *old(self)
            },
    {
        match self {
            Literal::String(x) => Ok(x),
            _ => Err(RuntimeError::NotAString),
        }
    }

    /// The integer held, to change it, or `NotAInteger`.
    pub fn as_integer_mut(&mut self) -> (r: Result<&mut i64, RuntimeError>)
        ensures
            *old(self) is Integer ==> match r {
                Ok(x) => *x == old(self)->Integer_0 && *final(self) == Literal::Integer(*final(x)),
                Err(_) => false,
            },
            !(*old(self) is Integer) ==> {
                &&& r matches Err(e) && e == RuntimeError::NotAInteger
                &&& *final(self) == *old(self)
            },
    {
        match self {
            Literal::Integer(x) => Ok(x),
            _ => Err(RuntimeError::NotAInteger),
        }
    }

    /// The float held, to change it, or `NotAFloat`.
    pub fn as_float_mut(&mut self) -> (r: Result<&mut u64, RuntimeError>)
        ensures
            *old(self) is Float ==> match r {
                Ok(x) => *x == old(self)->Float_0 && *final(self) == Literal::Float(*final(x)),
                Err(_) => false,
            },
            !(*old(self) is Float) ==> {
                &&& r matches Err(e) && e == RuntimeError::NotAFloat
                &&& *final(self) == *old(self)
            },
    {
        match self {
            Literal::Float(x) => Ok(x),
            _ => Err(RuntimeError::NotAFloat),
        }
    }

    /// The boolean held, to change it, or `NotABoolean`.
    pub fn as_boolean_mut(&mut self) -> (r: Result<&mut bool, RuntimeError>)
        ensures
            *old(self) is Boolean ==> match r {
                Ok(x) => *x == old(self)->Boolean_0 && *final(self) == Literal::Boolean(*final(x)),
                Err(_) => false,
            },
            !(*old(self) is Boolean) ==> {
                &&& r matches Err(e) && e == RuntimeError::NotABoolean
                &&& *final(self) == *old(self)
            },
    {
        match self {
            Literal::Boolean(x) => Ok(x),
            _ => Err(RuntimeError::NotABoolean),
        }
    }

    /// The array held, to change it, or `NotAArray`.
    pub fn as_array_mut(&mut self) -> (r: Result<&mut Vec<Literal>, RuntimeError>)
        ensures
            *old(self) is Array ==> match r {
                Ok(x) => *x == old(self)->Array_0 && *final(self) == Literal::Array(*final(x)),
                Err(_) => false,
            },
            !(*old(self) is Array) ==> {
                &&& r matches Err(e) && e == RuntimeError::NotAArray
                &&& *final(self) == *old(self)
            },
    {
        match self {
            Literal::Array(x) => Ok(x),
            _ => Err(RuntimeError::NotAArray),
        }
    }

    /// The object held, to change it, or `NotAObject`.
    pub fn as_object_mut(&mut self) -> (r: Result<&mut Vec<(String, Literal)>, RuntimeError>)
        ensures
            *old(self) is Object ==> match r {
                Ok(x) => *x == old(self)->Object_0 && *final(self) == Literal::Object(*final(x)),
                Err(_) => false,
            },
            !(*old(self) is Object) ==> {
                &&& r matches Err(e) && e == RuntimeError::NotAObject
                &&& *final(self) == *old(self)
            },
    {
        match self {
            Literal::Object(x) => Ok(x),
            _ => Err(RuntimeError::NotAObject),
        }
    }
}

/// The texts of the text parts of a template, in order.
pub open spec fn template_strings(parts: Seq<TemplatePartV>) -> Seq<Seq<char>>
    decreases parts.len(),
{
    if parts.len() == 0 {
        Seq::empty()
    } else {
        let rest = template_strings(parts.drop_last());
        match parts.last() {
            TemplatePartV::Text(s) => rest.push(s),
            TemplatePartV::Value(_) => rest,
        }
    }
}

/// The values of the value parts of a template, in order.
pub open spec fn template_values(parts: Seq<TemplatePartV>) -> Seq<RValueV>
    decreases parts.len(),
{
    if parts.len() == 0 {
        Seq::empty()
    } else {
        let rest = template_values(parts.drop_last());
        match parts.last() {
            TemplatePartV::Text(_) => rest,
            TemplatePartV::Value(v) => rest.push(v),
        }
    }
}

impl TemplateLiteral {
    /// The text parts of the template, in order.
    pub fn get_strings(&self) -> (r: Vec<String>)
        ensures
            strings_view(r@) == template_strings(self@),
    {
        let mut out: Vec<String> = Vec::new();
        let mut i: usize = 0;
        while i < self.parts.len()
            invariant
                0 <= i <= self.parts.len(),
                strings_view(out@) == template_strings(self@.take(i as int)),
            decreases self.parts.len() - i,
        {
            assert(self@.take(i + 1).drop_last() =~= self@.take(i as int));
            match &self.parts[i] {
                TemplateLiteralPart::Text(t) => {
                    out.push(t.clone());
                },
                TemplateLiteralPart::Value(_) => {},
            }
            i += 1;
            assert(strings_view(out@) =~= template_strings(self@.take(i as int)));
        }
        assert(self@.take(i as int) =~= self@);
        out
    }

    /// The value parts of the template, in order.
    pub fn get_values(&self) -> (r: Vec<RValue>)
        ensures
            r@.map_values(|v: RValue| v@) == template_values(self@),
    {
        let mut out: Vec<RValue> = Vec::new();
        let mut i: usize = 0;
        while i < self.parts.len()
            invariant
                0 <= i <= self.parts.len(),
                out@.map_values(|v: RValue| v@) == template_values(self@.take(i as int)),
            decreases self.parts.len() - i,
        {
            assert(self@.take(i + 1).drop_last() =~= self@.take(i as int));
            match &self.parts[i] {
                TemplateLiteralPart::Text(_) => {},
                TemplateLiteralPart::Value(v) => {
                    out.push(v.copy());
                },
            }
            i += 1;
            assert(out@.map_values(|v: RValue| v@) =~= template_values(self@.take(i as int)));
        }
        assert(self@.take(i as int) =~= self@);
        out
    }
}

/// The index of the first argument with the given name, if any.
pub open spec fn first_argument_index(args: Seq<ArgumentV>, name: Seq<char>) -> Option<int>
    decreases args.len(),
{
    if args.len() == 0 {
        None
    } else if args[0].name == name {
        Some(0)
    } else {
        match first_argument_index(args.drop_first(), name) {
            Some(i) => Some(i + 1),
            None => None,
        }
    }
}

proof fn lemma_first_argument_index(args: Seq<ArgumentV>, name: Seq<char>, i: int)
    requires
        0 <= i <= args.len(),
        forall|j: int| 0 <= j < i ==> args[j].name != name,
    ensures
        i < args.len() && args[i].name == name ==> first_argument_index(args, name) == Some(i),
        first_argument_index(args, name) matches Some(k) ==> 0 <= k < args.len(),
        i == args.len() ==> first_argument_index(args, name) is None,
    decreases i,
{
    lemma_first_argument_index_range(args, name);
    if i > 0 {
        lemma_first_argument_index(args.drop_first(), name, i - 1);
    }
}

proof fn lemma_first_argument_index_range(args: Seq<ArgumentV>, name: Seq<char>)
    ensures
        first_argument_index(args, name) matches Some(k) ==> 0 <= k < args.len(),
    decreases args.len(),
{
    if args.len() > 0 {
        lemma_first_argument_index_range(args.drop_first(), name);
    }
}

/// The value of the first argument named `name` in `args`.
fn find_argument<'a>(args: &'a Vec<Argument>, name: &str) -> (r: Option<&'a RValue>)
    ensures
        match first_argument_index(arguments_view(args@), name@) {
            Some(i) => 0 <= i < args@.len() && (r matches Some(v) && v@ == args@[i].value@),
            None => r is None,
        },
{
    let mut i: usize = 0;
    while i < args.len()
        invariant
            0 <= i <= args.len(),
            forall|j: int| 0 <= j < i ==> args@[j].name@ != name@,
        decreases args.len() - i,
    {
        if str_eq(args[i].name.as_str(), name) {
            proof {
                lemma_first_argument_index(arguments_view(args@), name@, i as int);
            }
            return Some(&args[i].value);
        }
        i += 1;
    }
    proof {
        lemma_first_argument_index(arguments_view(args@), name@, i as int);
    }
    None
}

impl CommandLine {
    /// The value of the first argument with the given name.
    pub fn get_argument(&self, name: &str) -> (r: Option<&RValue>)
        ensures
            match first_argument_index(self@.arguments, name@) {
                Some(i) => r matches Some(v) && v@ == self@.arguments[i].value,
                None => r is None,
            },
    {
        find_argument(&self.arguments, name)
    }
}

impl SystemCallLine {
    /// The value of the first argument with the given name.
    pub fn get_argument(&self, name: &str) -> (r: Option<&RValue>)
        ensures
            match first_argument_index(self@.arguments, name@) {
                Some(i) => r matches Some(v) && v@ == self@.arguments[i].value,
                None => r is None,
            },
    {
        find_argument(&self.arguments, name)
    }
}

} // verus!
