//! The concrete syntax tree: every token of a source file with its
//! position, whitespace and comments included, for editors and the
//! formatter. Each node type has a mathematical view.
use vstd::prelude::*;

use crate::format::{RValue, RValueV, Variable};
use crate::span::SpanInfo;
use crate::text::{seq_contains_char, chars_of};

verus! {

broadcast use vstd::std_specs::vec::axiom_vec_index_decreases;

/// Text that carries no meaning: whitespace and comments.
pub enum CstTrivia {
    Whitespace { content: String, span: SpanInfo },
    /// `// ...`, without the slashes.
    LineComment { content: String, span: SpanInfo },
    /// `/* ... */`, without the delimiters.
    BlockComment { content: String, span: SpanInfo },
}

/// A whole file.
pub struct CstRoot {
    pub name: String,
    pub nodes: Vec<CstNode>,
    pub span: SpanInfo,
}

/// Any element of the tree.
pub enum CstNode {
    Trivia(CstTrivia),
    Paragraph(CstParagraph),
    Command(CstCommand),
    SystemCall(CstSystemCall),
    TextLine(CstTextLine),
    Block(CstBlock),
    EmbeddedCode(CstEmbeddedCode),
    Attribute(CstAttribute),
    /// A line that could not be read, kept as it was.
    Error { content: String, span: SpanInfo, message: String },
}

/// An attribute `#[keyword(condition)]`.
pub struct CstAttribute {
    pub keyword: String,
    pub keyword_span: SpanInfo,
    pub condition: Option<String>,
    pub condition_span: Option<SpanInfo>,
    pub open_token: SpanInfo,
    pub close_token: SpanInfo,
    pub span: SpanInfo,
    pub leading_trivia: Vec<CstTrivia>,
}

/// How the arguments of a call are written.
#[derive(Debug, Clone, Copy, PartialEq, Eq, Structural)]
pub enum CommandSyntax {
    /// `@cmd(a=1, b=2)`
    Parenthesized { open_paren: SpanInfo, close_paren: SpanInfo },
    /// `@cmd a=1 b=2`
    SpaceSeparated,
}

/// A command `@command arg=value flag`.
pub struct CstCommand {
    pub command: String,
    pub at_token: SpanInfo,
    pub name_span: SpanInfo,
    pub arguments: Vec<CstArgument>,
    pub syntax: CommandSyntax,
    pub span: SpanInfo,
    pub leading_trivia: Vec<CstTrivia>,
}

/// A system call `#goto paragraph="main"`.
pub struct CstSystemCall {
    pub command: String,
    pub hash_token: SpanInfo,
    pub name_span: SpanInfo,
    pub arguments: Vec<CstArgument>,
    pub syntax: CommandSyntax,
    pub span: SpanInfo,
    pub leading_trivia: Vec<CstTrivia>,
}

/// An argument `name=value`, or a flag `name` when it has no value.
pub struct CstArgument {
    pub name: String,
    pub name_span: SpanInfo,
    pub equals_token: Option<SpanInfo>,
    pub value: Option<CstValue>,
    pub span: SpanInfo,
    pub leading_trivia: Vec<CstTrivia>,
    pub trailing_trivia: Vec<CstTrivia>,
}

/// Quote character of a string.
#[derive(Debug, Clone, Copy, PartialEq, Eq, Structural)]
pub enum QuoteStyle {
    Double,
    Single,
    Backtick,
}

/// What kind of value a token is.
#[derive(Debug, Clone, Copy, PartialEq, Eq, Structural)]
pub enum CstValueKind {
    String { quote: QuoteStyle },
    TemplateString,
    Integer,
    Float,
    Boolean,
    Variable,
}

/// A value token with its source text and its meaning.
pub struct CstValue {
    pub kind: CstValueKind,
    pub raw: String,
    pub parsed: RValue,
    pub span: SpanInfo,
}

/// A paragraph `::name(param, param="default") { ... }`.
pub struct CstParagraph {
    pub name: String,
    pub colon_token: SpanInfo,
    pub name_span: SpanInfo,
    pub parameters: Vec<CstParameter>,
    pub open_paren: Option<SpanInfo>,
    pub close_paren: Option<SpanInfo>,
    pub block: CstBlock,
    pub span: SpanInfo,
    pub leading_trivia: Vec<CstTrivia>,
}

/// A paragraph parameter `name` or `name=default`.
pub struct CstParameter {
    pub name: String,
    pub name_span: SpanInfo,
    pub equals_token: Option<SpanInfo>,
    pub default_value: Option<CstValue>,
    pub span: SpanInfo,
    pub leading_trivia: Vec<CstTrivia>,
    pub trailing_trivia: Vec<CstTrivia>,
}

/// A block `{ ... }`.
pub struct CstBlock {
    pub open_brace: SpanInfo,
    pub children: Vec<CstNode>,
    pub close_brace: SpanInfo,
    pub span: SpanInfo,
}

/// A text line `[leading] text #tailing`.
pub struct CstTextLine {
    pub leading: Option<CstLeadingText>,
    pub text: Option<CstText>,
    pub tailing: Option<CstTailingText>,
    pub span: SpanInfo,
    pub leading_trivia: Vec<CstTrivia>,
}

/// The bracketed part `[...]` of a text line.
pub struct CstLeadingText {
    pub open_bracket: SpanInfo,
    pub content: CstLeadingTextContent,
    pub close_bracket: SpanInfo,
    pub span: SpanInfo,
}

pub enum CstLeadingTextContent {
    Text(String),
    Template(CstTemplateLiteral),
}

/// The main text of a text line.
pub struct CstText {
    pub kind: CstTextKind,
    pub raw: String,
    pub parsed: String,
    pub span: SpanInfo,
}

pub enum CstTextKind {
    Bare,
    Quoted(QuoteStyle),
    Template(CstTemplateLiteral),
}

/// The marker `#tag` at the end of a text line.
pub struct CstTailingText {
    pub hash_token: SpanInfo,
    pub marker: String,
    pub marker_span: SpanInfo,
    pub span: SpanInfo,
}

/// A template string `` `text ${var}` ``.
pub struct CstTemplateLiteral {
    pub parts: Vec<CstTemplatePart>,
    pub span: SpanInfo,
}

pub enum CstTemplatePart {
    Text { content: String, span: SpanInfo },
    Value {
        open_token: SpanInfo,
        variable: Variable,
        variable_span: SpanInfo,
        close_token: SpanInfo,
        span: SpanInfo,
    },
}

/// How embedded code is delimited.
#[derive(Debug, Clone, Copy, PartialEq, Eq, Structural)]
pub enum EmbeddedCodeSyntax {
    /// `@{ ... }`
    Brace,
    /// `## ... ##`
    Hash,
}

/// Embedded script code.
pub struct CstEmbeddedCode {
    pub syntax: EmbeddedCodeSyntax,
    pub code: String,
    pub span: SpanInfo,
}

// ---------------------------------------------------------------------
// Views
// ---------------------------------------------------------------------

pub enum TriviaV {
    Whitespace { content: Seq<char>, span: SpanInfo },
    LineComment { content: Seq<char>, span: SpanInfo },
    BlockComment { content: Seq<char>, span: SpanInfo },
}

pub struct CstValueV {
    pub kind: CstValueKind,
    pub raw: Seq<char>,
    pub parsed: RValueV,
    pub span: SpanInfo,
}

pub struct CstArgumentV {
    pub name: Seq<char>,
    pub name_span: SpanInfo,
    pub equals_token: Option<SpanInfo>,
    pub value: Option<CstValueV>,
    pub span: SpanInfo,
    pub leading_trivia: Seq<TriviaV>,
    pub trailing_trivia: Seq<TriviaV>,
}

/// View of a command or a system call; `token` is the `@` or `#`.
pub struct CstCallV {
    pub command: Seq<char>,
    pub token: SpanInfo,
    pub name_span: SpanInfo,
    pub arguments: Seq<CstArgumentV>,
    pub syntax: CommandSyntax,
    pub span: SpanInfo,
    pub leading_trivia: Seq<TriviaV>,
}

pub struct CstAttributeV {
    pub keyword: Seq<char>,
    pub keyword_span: SpanInfo,
    pub condition: Option<Seq<char>>,
    pub condition_span: Option<SpanInfo>,
    pub open_token: SpanInfo,
    pub close_token: SpanInfo,
    pub span: SpanInfo,
    pub leading_trivia: Seq<TriviaV>,
}

pub struct CstParameterV {
    pub name: Seq<char>,
    pub name_span: SpanInfo,
    pub equals_token: Option<SpanInfo>,
    pub default_value: Option<CstValueV>,
    pub span: SpanInfo,
    pub leading_trivia: Seq<TriviaV>,
    pub trailing_trivia: Seq<TriviaV>,
}

pub enum CstTemplatePartV {
    Text { content: Seq<char>, span: SpanInfo },
    Value {
        open_token: SpanInfo,
        variable: Seq<Seq<char>>,
        variable_span: SpanInfo,
        close_token: SpanInfo,
        span: SpanInfo,
    },
}

pub struct CstTemplateV {
    pub parts: Seq<CstTemplatePartV>,
    pub span: SpanInfo,
}

pub enum CstLeadingContentV {
    Text(Seq<char>),
    Template(CstTemplateV),
}

pub struct CstLeadingTextV {
    pub open_bracket: SpanInfo,
    pub content: CstLeadingContentV,
    pub close_bracket: SpanInfo,
    pub span: SpanInfo,
}

pub enum CstTextKindV {
    Bare,
    Quoted(QuoteStyle),
    Template(CstTemplateV),
}

pub struct CstTextV {
    pub kind: CstTextKindV,
    pub raw: Seq<char>,
    pub parsed: Seq<char>,
    pub span: SpanInfo,
}

pub struct CstTailingTextV {
    pub hash_token: SpanInfo,
    pub marker: Seq<char>,
    pub marker_span: SpanInfo,
    pub span: SpanInfo,
}

pub struct CstTextLineV {
    pub leading: Option<CstLeadingTextV>,
    pub text: Option<CstTextV>,
    pub tailing: Option<CstTailingTextV>,
    pub span: SpanInfo,
    pub leading_trivia: Seq<TriviaV>,
}

pub struct CstEmbeddedCodeV {
    pub syntax: EmbeddedCodeSyntax,
    pub code: Seq<char>,
    pub span: SpanInfo,
}

pub struct CstBlockV {
    pub open_brace: SpanInfo,
    pub children: Seq<CstNodeV>,
    pub close_brace: SpanInfo,
    pub span: SpanInfo,
}

pub struct CstParagraphV {
    pub name: Seq<char>,
    pub colon_token: SpanInfo,
    pub name_span: SpanInfo,
    pub parameters: Seq<CstParameterV>,
    pub open_paren: Option<SpanInfo>,
    pub close_paren: Option<SpanInfo>,
    pub block: CstBlockV,
    pub span: SpanInfo,
    pub leading_trivia: Seq<TriviaV>,
}

pub enum CstNodeV {
    Trivia(TriviaV),
    Paragraph(CstParagraphV),
    Command(CstCallV),
    SystemCall(CstCallV),
    TextLine(CstTextLineV),
    Block(CstBlockV),
    EmbeddedCode(CstEmbeddedCodeV),
    Attribute(CstAttributeV),
    Error { content: Seq<char>, span: SpanInfo, message: Seq<char> },
}

pub struct CstRootV {
    pub name: Seq<char>,
    pub nodes: Seq<CstNodeV>,
    pub span: SpanInfo,
}

impl View for CstTrivia {
    type V = TriviaV;

    open spec fn view(&self) -> TriviaV {
        match self {
            CstTrivia::Whitespace { content, span } => TriviaV::Whitespace {
                content: content@,
                span: *span,
            },
            CstTrivia::LineComment { content, span } => TriviaV::LineComment {
                content: content@,
                span: *span,
            },
            CstTrivia::BlockComment { content, span } => TriviaV::BlockComment {
                content: content@,
                span: *span,
            },
        }
    }
}

pub open spec fn trivia_view(v: Seq<CstTrivia>) -> Seq<TriviaV> {
    v.map_values(|t: CstTrivia| t@)
}

impl View for CstValue {
    type V = CstValueV;

    open spec fn view(&self) -> CstValueV {
        CstValueV { kind: self.kind, raw: self.raw@, parsed: self.parsed@, span: self.span }
    }
}

pub open spec fn opt_value_view(v: Option<CstValue>) -> Option<CstValueV> {
    match v {
        Some(x) => Some(x@),
        None => None,
    }
}

impl View for CstArgument {
    type V = CstArgumentV;

    open spec fn view(&self) -> CstArgumentV {
        CstArgumentV {
            name: self.name@,
            name_span: self.name_span,
            equals_token: self.equals_token,
            value: opt_value_view(self.value),
            span: self.span,
            leading_trivia: trivia_view(self.leading_trivia@),
            trailing_trivia: trivia_view(self.trailing_trivia@),
        }
    }
}

pub open spec fn cst_arguments_view(v: Seq<CstArgument>) -> Seq<CstArgumentV> {
    v.map_values(|a: CstArgument| a@)
}

impl View for CstCommand {
    type V = CstCallV;

    open spec fn view(&self) -> CstCallV {
        CstCallV {
            command: self.command@,
            token: self.at_token,
            name_span: self.name_span,
            arguments: cst_arguments_view(self.arguments@),
            syntax: self.syntax,
            span: self.span,
            leading_trivia: trivia_view(self.leading_trivia@),
        }
    }
}

impl View for CstSystemCall {
    type V = CstCallV;

    open spec fn view(&self) -> CstCallV {
        CstCallV {
            command: self.command@,
            token: self.hash_token,
            name_span: self.name_span,
            arguments: cst_arguments_view(self.arguments@),
            syntax: self.syntax,
            span: self.span,
            leading_trivia: trivia_view(self.leading_trivia@),
        }
    }
}

pub open spec fn opt_string_view(v: Option<String>) -> Option<Seq<char>> {
    match v {
        Some(x) => Some(x@),
        None => None,
    }
}

impl View for CstAttribute {
    type V = CstAttributeV;

    open spec fn view(&self) -> CstAttributeV {
        CstAttributeV {
            keyword: self.keyword@,
            keyword_span: self.keyword_span,
            condition: opt_string_view(self.condition),
            condition_span: self.condition_span,
            open_token: self.open_token,
            close_token: self.close_token,
            span: self.span,
            leading_trivia: trivia_view(self.leading_trivia@),
        }
    }
}

impl View for CstParameter {
    type V = CstParameterV;

    open spec fn view(&self) -> CstParameterV {
        CstParameterV {
            name: self.name@,
            name_span: self.name_span,
            equals_token: self.equals_token,
            default_value: opt_value_view(self.default_value),
            span: self.span,
            leading_trivia: trivia_view(self.leading_trivia@),
            trailing_trivia: trivia_view(self.trailing_trivia@),
        }
    }
}

impl View for CstTemplatePart {
    type V = CstTemplatePartV;

    open spec fn view(&self) -> CstTemplatePartV {
        match self {
            CstTemplatePart::Text { content, span } => CstTemplatePartV::Text {
                content: content@,
                span: *span,
            },
            CstTemplatePart::Value { open_token, variable, variable_span, close_token, span } =>
                CstTemplatePartV::Value {
                open_token: *open_token,
                variable: variable@,
                variable_span: *variable_span,
                close_token: *close_token,
                span: *span,
            },
        }
    }
}

pub open spec fn template_parts_view(v: Seq<CstTemplatePart>) -> Seq<CstTemplatePartV> {
    v.map_values(|p: CstTemplatePart| p@)
}

impl View for CstTemplateLiteral {
    type V = CstTemplateV;

    open spec fn view(&self) -> CstTemplateV {
        CstTemplateV {
            parts: template_parts_view(self.parts@),
            span: self.span,
        }
    }
}

impl View for CstLeadingText {
    type V = CstLeadingTextV;

    open spec fn view(&self) -> CstLeadingTextV {
        CstLeadingTextV {
            open_bracket: self.open_bracket,
            content: match self.content {
                CstLeadingTextContent::Text(s) => CstLeadingContentV::Text(s@),
                CstLeadingTextContent::Template(t) => CstLeadingContentV::Template(t@),
            },
            close_bracket: self.close_bracket,
            span: self.span,
        }
    }
}

impl View for CstText {
    type V = CstTextV;

    open spec fn view(&self) -> CstTextV {
        CstTextV {
            kind: match self.kind {
                CstTextKind::Bare => CstTextKindV::Bare,
                CstTextKind::Quoted(q) => CstTextKindV::Quoted(q),
                CstTextKind::Template(t) => CstTextKindV::Template(t@),
            },
            raw: self.raw@,
            parsed: self.parsed@,
            span: self.span,
        }
    }
}

impl View for CstTailingText {
    type V = CstTailingTextV;

    open spec fn view(&self) -> CstTailingTextV {
        CstTailingTextV {
            hash_token: self.hash_token,
            marker: self.marker@,
            marker_span: self.marker_span,
            span: self.span,
        }
    }
}

impl View for CstTextLine {
    type V = CstTextLineV;

    open spec fn view(&self) -> CstTextLineV {
        CstTextLineV {
            leading: match self.leading {
                Some(l) => Some(l@),
                None => None,
            },
            text: match self.text {
                Some(t) => Some(t@),
                None => None,
            },
            tailing: match self.tailing {
                Some(t) => Some(t@),
                None => None,
            },
            span: self.span,
            leading_trivia: trivia_view(self.leading_trivia@),
        }
    }
}

impl View for CstEmbeddedCode {
    type V = CstEmbeddedCodeV;

    open spec fn view(&self) -> CstEmbeddedCodeV {
        CstEmbeddedCodeV { syntax: self.syntax, code: self.code@, span: self.span }
    }
}

pub open spec fn cst_node_view(n: CstNode) -> CstNodeV
    decreases n,
{
    match n {
        CstNode::Trivia(t) => CstNodeV::Trivia(t@),
        CstNode::Paragraph(p) => CstNodeV::Paragraph(cst_paragraph_view(p)),
        CstNode::Command(c) => CstNodeV::Command(c@),
        CstNode::SystemCall(s) => CstNodeV::SystemCall(s@),
        CstNode::TextLine(t) => CstNodeV::TextLine(t@),
        CstNode::Block(b) => CstNodeV::Block(cst_block_view(b)),
        CstNode::EmbeddedCode(e) => CstNodeV::EmbeddedCode(e@),
        CstNode::Attribute(a) => CstNodeV::Attribute(a@),
        CstNode::Error { content, span, message } => CstNodeV::Error {
            content: content@,
            span,
            message: message@,
        },
    }
}

pub open spec fn cst_nodes_view(v: Vec<CstNode>) -> Seq<CstNodeV>
    decreases v,
{
    Seq::new(
        v@.len(),
        |i: int|
            if 0 <= i < v.len() {
                cst_node_view(v[i])
            } else {
                CstNodeV::Trivia(TriviaV::Whitespace { content: Seq::empty(), span: arbitrary() })
            },
    )
}

pub open spec fn cst_block_view(b: CstBlock) -> CstBlockV
    decreases b,
{
    CstBlockV {
        open_brace: b.open_brace,
        children: cst_nodes_view(b.children),
        close_brace: b.close_brace,
        span: b.span,
    }
}

pub open spec fn cst_parameters_view(v: Seq<CstParameter>) -> Seq<CstParameterV> {
    v.map_values(|q: CstParameter| q@)
}

pub open spec fn cst_paragraph_view(p: CstParagraph) -> CstParagraphV
    decreases p,
{
    CstParagraphV {
        name: p.name@,
        colon_token: p.colon_token,
        name_span: p.name_span,
        parameters: cst_parameters_view(p.parameters@),
        open_paren: p.open_paren,
        close_paren: p.close_paren,
        block: cst_block_view(p.block),
        span: p.span,
        leading_trivia: trivia_view(p.leading_trivia@),
    }
}

impl View for CstNode {
    type V = CstNodeV;

    open spec fn view(&self) -> CstNodeV {
        cst_node_view(*self)
    }
}

impl View for CstBlock {
    type V = CstBlockV;

    open spec fn view(&self) -> CstBlockV {
        cst_block_view(*self)
    }
}

impl View for CstParagraph {
    type V = CstParagraphV;

    open spec fn view(&self) -> CstParagraphV {
        cst_paragraph_view(*self)
    }
}

impl View for CstRoot {
    type V = CstRootV;

    open spec fn view(&self) -> CstRootV {
        CstRootV { name: self.name@, nodes: cst_nodes_view(self.nodes), span: self.span }
    }
}

// ---------------------------------------------------------------------
// Simple accessors
// ---------------------------------------------------------------------

pub open spec fn trivia_span(t: TriviaV) -> SpanInfo {
    match t {
        TriviaV::Whitespace { span, .. } => span,
        TriviaV::LineComment { span, .. } => span,
        TriviaV::BlockComment { span, .. } => span,
    }
}

pub open spec fn trivia_content(t: TriviaV) -> Seq<char> {
    match t {
        TriviaV::Whitespace { content, .. } => content,
        TriviaV::LineComment { content, .. } => content,
        TriviaV::BlockComment { content, .. } => content,
    }
}

impl CstTrivia {
    /// The range of the trivia.
    pub fn span(&self) -> (r: &SpanInfo)
        ensures
            *r == trivia_span(self@),
    {
        match self {
            CstTrivia::Whitespace { span, .. } => span,
            CstTrivia::LineComment { span, .. } => span,
            CstTrivia::BlockComment { span, .. } => span,
        }
    }

    /// The text of the trivia (comments without their delimiters).
    pub fn content(&self) -> (r: &str)
        ensures
            r@ == trivia_content(self@),
    {
        match self {
            CstTrivia::Whitespace { content, .. } => content.as_str(),
            CstTrivia::LineComment { content, .. } => content.as_str(),
            CstTrivia::BlockComment { content, .. } => content.as_str(),
        }
    }

    /// A copy of the trivia.
    pub fn copy(&self) -> (r: CstTrivia)
        ensures
            r@ == self@,
    {
        match self {
            CstTrivia::Whitespace { content, span } => CstTrivia::Whitespace {
                content: content.clone(),
                span: *span,
            },
            CstTrivia::LineComment { content, span } => CstTrivia::LineComment {
                content: content.clone(),
                span: *span,
            },
            CstTrivia::BlockComment { content, span } => CstTrivia::BlockComment {
                content: content.clone(),
                span: *span,
            },
        }
    }

    /// Whether the text of the trivia holds a line feed.
    pub fn has_newline(&self) -> (r: bool)
        ensures
            r == trivia_content(self@).contains('\n'),
    {
        let cs = chars_of(self.content());
        seq_contains_char(cs.as_slice(), '\n')
    }
}

pub open spec fn node_span(n: CstNodeV) -> SpanInfo {
    match n {
        CstNodeV::Trivia(t) => trivia_span(t),
        CstNodeV::Paragraph(p) => p.span,
        CstNodeV::Command(c) => c.span,
        CstNodeV::SystemCall(s) => s.span,
        CstNodeV::TextLine(t) => t.span,
        CstNodeV::Block(b) => b.span,
        CstNodeV::EmbeddedCode(e) => e.span,
        CstNodeV::Attribute(a) => a.span,
        CstNodeV::Error { span, .. } => span,
    }
}

impl CstNode {
    /// The range of the node.
    pub fn span(&self) -> (r: SpanInfo)
        ensures
            r == node_span(self@),
    {
        match self {
            CstNode::Trivia(t) => *t.span(),
            CstNode::Paragraph(p) => p.span,
            CstNode::Command(c) => c.span,
            CstNode::SystemCall(s) => s.span,
            CstNode::TextLine(t) => t.span,
            CstNode::Block(b) => b.span,
            CstNode::EmbeddedCode(e) => e.span,
            CstNode::Attribute(a) => a.span,
            CstNode::Error { span, .. } => *span,
        }
    }
}

} // verus!
