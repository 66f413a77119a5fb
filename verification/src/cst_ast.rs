//! From the concrete syntax tree to the abstract syntax of a story.
use vstd::prelude::*;

use crate::cst::{
    cst_arguments_view, cst_node_view, CstArgument, CstArgumentV, CstAttribute, CstAttributeV,
    CstBlock, CstBlockV, CstCallV, CstCommand, CstEmbeddedCode, CstLeadingContentV, CstLeadingText,
    CstLeadingTextContent, CstNode, CstNodeV, CstParagraph, CstParagraphV, CstParameter,
    CstParameterV, CstRoot, CstRootV, CstSystemCall, CstTailingText, CstTemplateLiteral,
    CstTemplatePart, CstTemplatePartV, CstTemplateV, CstText, CstTextKind, CstTextKindV,
    CstTextLine, CstTextLineV, CstTextV, CstValue, CstLeadingTextV,
};
use crate::error::RuntimeError;
use crate::format::{
    arguments_view, child_view, children_view, Argument, ArgumentV, Attribute, AttributeV, Block,
    CallV, Child, ChildContent, ChildContentV, ChildV, CommandLine, LeadingText, LeadingTextV,
    Literal, LiteralV, Paragraph, ParagraphV, Parameter, ParameterV, RValue, RValueV, Story,
    StoryV, SystemCallLine, TailingText, TailingTextV, TemplateLiteral, TemplateLiteralPart,
    TemplatePartV, Text, TextV,
};

verus! {

broadcast use vstd::std_specs::vec::axiom_vec_index_decreases;

pub open spec fn attribute_to_ast(a: CstAttributeV) -> AttributeV {
    AttributeV { keyword: a.keyword, condition: a.condition }
}

/// An argument without a value is a flag: the value `true`.
pub open spec fn argument_to_ast(a: CstArgumentV) -> ArgumentV {
    ArgumentV {
        name: a.name,
        value: match a.value {
            Some(v) => v.parsed,
            None => RValueV::Literal(LiteralV::Boolean(true)),
        },
    }
}

pub open spec fn arguments_to_ast(v: Seq<CstArgumentV>) -> Seq<ArgumentV> {
    v.map_values(|a: CstArgumentV| argument_to_ast(a))
}

pub open spec fn call_to_ast(c: CstCallV) -> CallV {
    CallV { command: c.command, arguments: arguments_to_ast(c.arguments) }
}

/// A default value that is a variable is dropped.
pub open spec fn parameter_to_ast(p: CstParameterV) -> ParameterV {
    ParameterV {
        name: p.name,
        default_value: match p.default_value {
            Some(v) => match v.parsed {
                RValueV::Literal(l) => Some(l),
                RValueV::Variable(_) => None,
            },
            None => None,
        },
    }
}

pub open spec fn template_part_to_ast(p: CstTemplatePartV) -> TemplatePartV {
    match p {
        CstTemplatePartV::Text { content, .. } => TemplatePartV::Text(content),
        CstTemplatePartV::Value { variable, .. } => TemplatePartV::Value(
            RValueV::Variable(variable),
        ),
    }
}

pub open spec fn template_to_ast(t: CstTemplateV) -> Seq<TemplatePartV> {
    t.parts.map_values(|p: CstTemplatePartV| template_part_to_ast(p))
}

pub open spec fn leading_to_ast(l: CstLeadingTextV) -> LeadingTextV {
    match l.content {
        CstLeadingContentV::Text(s) => LeadingTextV::Text(s),
        CstLeadingContentV::Template(t) => LeadingTextV::Template(template_to_ast(t)),
    }
}

pub open spec fn text_to_ast(t: CstTextV) -> TextV {
    match t.kind {
        CstTextKindV::Bare => TextV::Text(t.parsed),
        CstTextKindV::Quoted(_) => TextV::Text(t.parsed),
        CstTextKindV::Template(tpl) => TextV::Template(template_to_ast(tpl)),
    }
}

pub open spec fn text_line_to_ast(t: CstTextLineV) -> ChildContentV {
    ChildContentV::TextLine(
        match t.leading {
            Some(l) => leading_to_ast(l),
            None => LeadingTextV::Absent,
        },
        match t.text {
            Some(x) => text_to_ast(x),
            None => TextV::Absent,
        },
        match t.tailing {
            Some(g) => TailingTextV::Text(g.marker),
            None => TailingTextV::Absent,
        },
    )
}

/// The children of a block: each line takes the attributes written
/// since the previous line; attributes after the last line are dropped,
/// and trivia, paragraphs and unreadable lines are left out.
pub open spec fn children_to_ast(nodes: Seq<CstNodeV>, pending: Seq<AttributeV>) -> Seq<ChildV>
    decreases nodes,
{
    if nodes.len() == 0 {
        Seq::empty()
    } else {
        let rest = nodes.drop_first();
        let with = |c: ChildContentV| ChildV { attributes: pending, content: c };
        match nodes[0] {
            CstNodeV::Attribute(a) => children_to_ast(rest, pending.push(attribute_to_ast(a))),
            CstNodeV::Command(c) => seq![with(ChildContentV::CommandLine(call_to_ast(c)))]
                + children_to_ast(rest, Seq::empty()),
            CstNodeV::SystemCall(c) => seq![with(ChildContentV::SystemCallLine(call_to_ast(c)))]
                + children_to_ast(rest, Seq::empty()),
            CstNodeV::TextLine(t) => seq![with(text_line_to_ast(t))] + children_to_ast(
                rest,
                Seq::empty(),
            ),
            CstNodeV::Block(b) => seq![with(ChildContentV::Block(block_to_ast(b)))]
                + children_to_ast(rest, Seq::empty()),
            CstNodeV::EmbeddedCode(e) => seq![with(ChildContentV::EmbeddedCode(e.code))]
                + children_to_ast(rest, Seq::empty()),
            _ => children_to_ast(rest, pending),
        }
    }
}

pub open spec fn block_to_ast(b: CstBlockV) -> Seq<ChildV>
    decreases b,
{
    children_to_ast(b.children, Seq::empty())
}

pub open spec fn paragraph_to_ast(p: CstParagraphV) -> ParagraphV {
    ParagraphV {
        name: p.name,
        parameters: p.parameters.map_values(|q: CstParameterV| parameter_to_ast(q)),
        block: block_to_ast(p.block),
    }
}

/// The paragraphs among the top-level nodes, in order.
pub open spec fn paragraphs_to_ast(nodes: Seq<CstNodeV>) -> Seq<ParagraphV>
    decreases nodes.len(),
{
    if nodes.len() == 0 {
        Seq::empty()
    } else {
        let rest = paragraphs_to_ast(nodes.drop_first());
        match nodes[0] {
            CstNodeV::Paragraph(p) => seq![paragraph_to_ast(p)] + rest,
            _ => rest,
        }
    }
}

pub open spec fn root_to_ast(r: CstRootV) -> StoryV {
    StoryV { name: r.name, paragraphs: paragraphs_to_ast(r.nodes) }
}

impl CstAttribute {
    pub fn to_ast(&self) -> (r: Attribute)
        ensures
            r@ == attribute_to_ast(self@),
    {
        Attribute {
            keyword: self.keyword.clone(),
            condition: match &self.condition {
                Some(c) => Some(c.clone()),
                None => None,
            },
        }
    }
}

impl CstValue {
    pub fn to_ast(&self) -> (r: RValue)
        ensures
            r@ == self@.parsed,
    {
        self.parsed.copy()
    }
}

impl CstArgument {
    pub fn to_ast(&self) -> (r: Argument)
        ensures
            r@ == argument_to_ast(self@),
    {
        Argument {
            name: self.name.clone(),
            value: match &self.value {
                Some(v) => v.to_ast(),
                None => RValue::Literal(Literal::Boolean(true)),
            },
        }
    }
}

fn arguments_to_ast_exec(args: &Vec<CstArgument>) -> (r: Vec<Argument>)
    ensures
        arguments_view(r@) == arguments_to_ast(cst_arguments_view(args@)),
{
    let mut out: Vec<Argument> = Vec::new();
    let mut i: usize = 0;
    while i < args.len()
        invariant
            0 <= i <= args.len(),
            out@.len() == i,
            forall|j: int| 0 <= j < i ==> (#[trigger] out@[j])@ == argument_to_ast(args@[j]@),
        decreases args.len() - i,
    {
        out.push(args[i].to_ast());
        i += 1;
    }
    assert(arguments_view(out@) =~= arguments_to_ast(cst_arguments_view(args@)));
    out
}

impl CstCommand {
    pub fn to_ast(&self) -> (r: CommandLine)
        ensures
            r@ == call_to_ast(self@),
    {
        CommandLine { command: self.command.clone(), arguments: arguments_to_ast_exec(&self.arguments) }
    }
}

impl CstSystemCall {
    pub fn to_ast(&self) -> (r: SystemCallLine)
        ensures
            r@ == call_to_ast(self@),
    {
        SystemCallLine {
            command: self.command.clone(),
            arguments: arguments_to_ast_exec(&self.arguments),
        }
    }
}

impl CstParameter {
    pub fn to_ast(&self) -> (r: Parameter)
        ensures
            r@ == parameter_to_ast(self@),
    {
        Parameter {
            name: self.name.clone(),
            default_value: match &self.default_value {
                Some(v) => match &v.parsed {
                    RValue::Literal(l) => Some(l.copy()),
                    RValue::Variable(_) => None,
                },
                None => None,
            },
        }
    }
}

impl CstTemplatePart {
    pub fn to_ast(&self) -> (r: TemplateLiteralPart)
        ensures
            r@ == template_part_to_ast(self@),
    {
        match self {
            CstTemplatePart::Text { content, .. } => TemplateLiteralPart::Text(content.clone()),
            CstTemplatePart::Value { variable, .. } => TemplateLiteralPart::Value(
                RValue::Variable(variable.copy()),
            ),
        }
    }
}

impl CstTemplateLiteral {
    pub fn to_ast(&self) -> (r: TemplateLiteral)
        ensures
            r@ == template_to_ast(self@),
    {
        let mut out: Vec<TemplateLiteralPart> = Vec::new();
        let mut i: usize = 0;
        while i < self.parts.len()
            invariant
                0 <= i <= self.parts.len(),
                out@.len() == i,
                forall|j: int|
                    0 <= j < i ==> (#[trigger] out@[j])@ == template_part_to_ast(self.parts@[j]@),
            decreases self.parts.len() - i,
        {
            out.push(self.parts[i].to_ast());
            i += 1;
        }
        let r = TemplateLiteral { parts: out };
        assert(r@ =~= template_to_ast(self@));
        r
    }
}

impl CstLeadingText {
    pub fn to_ast(&self) -> (r: LeadingText)
        ensures
            r@ == leading_to_ast(self@),
    {
        match &self.content {
            CstLeadingTextContent::Text(t) => LeadingText::Text(t.clone()),
            CstLeadingTextContent::Template(tpl) => LeadingText::TemplateLiteral(tpl.to_ast()),
        }
    }
}

impl CstText {
    pub fn to_ast(&self) -> (r: Result<Text, RuntimeError>)
        ensures
            r matches Ok(t) && t@ == text_to_ast(self@),
    {
        Ok(
            match &self.kind {
                CstTextKind::Bare => Text::Text(self.parsed.clone()),
                CstTextKind::Quoted(_) => Text::Text(self.parsed.clone()),
                CstTextKind::Template(tpl) => Text::TemplateLiteral(tpl.to_ast()),
            },
        )
    }
}

impl CstTailingText {
    pub fn to_ast(&self) -> (r: TailingText)
        ensures
            r@ == TailingTextV::Text(self@.marker),
    {
        TailingText::Text(self.marker.clone())
    }
}

impl CstTextLine {
    pub fn to_ast(&self) -> (r: Result<Child, RuntimeError>)
        ensures
            r matches Ok(c) && c@ == (ChildV {
                attributes: Seq::empty(),
                content: text_line_to_ast(self@),
            }),
    {
        let leading = match &self.leading {
            Some(l) => l.to_ast(),
            None => LeadingText::Absent,
        };
        let text = match &self.text {
            Some(t) => match t.to_ast() {
                Ok(x) => x,
                Err(e) => return Err(e),
            },
            None => Text::Absent,
        };
        let tailing = match &self.tailing {
            Some(t) => t.to_ast(),
            None => TailingText::Absent,
        };
        let c = Child { attributes: Vec::new(), content: ChildContent::TextLine(leading, text, tailing) };
        assert(c@.attributes =~= Seq::<AttributeV>::empty());
        Ok(c)
    }
}

impl CstEmbeddedCode {
    pub fn to_ast(&self) -> (r: Result<Child, RuntimeError>)
        ensures
            r matches Ok(c) && c@ == (ChildV {
                attributes: Seq::empty(),
                content: ChildContentV::EmbeddedCode(self@.code),
            }),
    {
        let c = Child {
            attributes: Vec::new(),
            content: ChildContent::EmbeddedCode(self.code.clone()),
        };
        assert(c@.attributes =~= Seq::<AttributeV>::empty());
        Ok(c)
    }
}

impl CstBlock {
    pub fn to_ast(&self) -> (r: Result<Block, RuntimeError>)
        ensures
            r matches Ok(b) && b@ == block_to_ast(self@),
        decreases self,
    {
        let ghost nodes = self@.children;
        let mut children: Vec<Child> = Vec::new();
        let mut pending: Vec<Attribute> = Vec::new();
        let mut i: usize = 0;
        assert(nodes.skip(0) =~= nodes);
        assert(children_view(children) =~= Seq::<ChildV>::empty());
        assert(pending@.map_values(|a: Attribute| a@) =~= Seq::<AttributeV>::empty());
        assert(Seq::<ChildV>::empty() + children_to_ast(nodes, Seq::empty()) =~= children_to_ast(nodes, Seq::empty()));
        while i < self.children.len()
            invariant
                0 <= i <= self.children.len(),
                nodes == self@.children,
                nodes.len() == self.children.len(),
                children_view(children) + children_to_ast(
                    nodes.skip(i as int),
                    pending@.map_values(|a: Attribute| a@),
                ) == children_to_ast(nodes, Seq::empty()),
            decreases self.children.len() - i,
        {
            let ghost rest = nodes.skip(i + 1);
            let ghost cur = nodes.skip(i as int);
            assert(cur.drop_first() =~= rest);
            assert(cur[0] == nodes[i as int]);
            assert(nodes[i as int] == cst_node_view(self.children@[i as int]));
            let ghost before = children_view(children);
            let ghost pend = pending@.map_values(|a: Attribute| a@);
            match &self.children[i] {
                CstNode::Attribute(a) => {
                    pending.push(a.to_ast());
                    assert(pending@.map_values(|a: Attribute| a@) =~= pend.push(
                        attribute_to_ast(a@),
                    ));
                },
                CstNode::Command(c) => {
                    let attrs = pending;
                    pending = Vec::new();
                    let child = Child { attributes: attrs, content: ChildContent::CommandLine(c.to_ast()) };
                    let ghost old_children = children;
                    let ghost cv = child@;
                    children.push(child);
                    proof {
                        assert(pending@.map_values(|a: Attribute| a@) =~= Seq::<AttributeV>::empty());
                        lemma_children_view_push(old_children, children, cv);
                        assert(children_view(children) + children_to_ast(rest, Seq::empty()) =~= before
                            + children_to_ast(cur, pend));
                    }
                },
                CstNode::SystemCall(c) => {
                    let attrs = pending;
                    pending = Vec::new();
                    let child = Child {
                        attributes: attrs,
                        content: ChildContent::SystemCallLine(c.to_ast()),
                    };
                    let ghost old_children = children;
                    let ghost cv = child@;
                    children.push(child);
                    proof {
                        assert(pending@.map_values(|a: Attribute| a@) =~= Seq::<AttributeV>::empty());
                        lemma_children_view_push(old_children, children, cv);
                        assert(children_view(children) + children_to_ast(rest, Seq::empty()) =~= before
                            + children_to_ast(cur, pend));
                    }
                },
                CstNode::TextLine(t) => {
                    let mut child = match t.to_ast() {
                        Ok(c) => c,
                        Err(e) => return Err(e),
                    };
                    child.attributes = pending;
                    pending = Vec::new();
                    let ghost old_children = children;
                    let ghost cv = child@;
                    children.push(child);
                    proof {
                        assert(pending@.map_values(|a: Attribute| a@) =~= Seq::<AttributeV>::empty());
                        lemma_children_view_push(old_children, children, cv);
                        assert(children_view(children) + children_to_ast(rest, Seq::empty()) =~= before
                            + children_to_ast(cur, pend));
                    }
                },
                CstNode::Block(b) => {
                    assert(decreases_to!(*self => self.children));
                    assert(decreases_to!(self.children => self.children[i as int]));
                    assert(decreases_to!(self.children[i as int] => self.children[i as int]->Block_0));
                    let inner = match b.to_ast() {
                        Ok(x) => x,
                        Err(e) => return Err(e),
                    };
                    let attrs = pending;
                    pending = Vec::new();
                    let child = Child { attributes: attrs, content: ChildContent::Block(inner) };
                    let ghost old_children = children;
                    let ghost cv = child@;
                    children.push(child);
                    proof {
                        assert(pending@.map_values(|a: Attribute| a@) =~= Seq::<AttributeV>::empty());
                        lemma_children_view_push(old_children, children, cv);
                        assert(children_view(children) + children_to_ast(rest, Seq::empty()) =~= before
                            + children_to_ast(cur, pend));
                    }
                },
                CstNode::EmbeddedCode(e) => {
                    let attrs = pending;
                    pending = Vec::new();
                    let child = Child {
                        attributes: attrs,
                        content: ChildContent::EmbeddedCode(e.code.clone()),
                    };
                    let ghost old_children = children;
                    let ghost cv = child@;
                    children.push(child);
                    proof {
                        assert(pending@.map_values(|a: Attribute| a@) =~= Seq::<AttributeV>::empty());
                        lemma_children_view_push(old_children, children, cv);
                        assert(children_view(children) + children_to_ast(rest, Seq::empty()) =~= before
                            + children_to_ast(cur, pend));
                    }
                },
                _ => {},
            }
            i += 1;
        }
        assert(nodes.skip(i as int) =~= Seq::<CstNodeV>::empty());
        assert(children_view(children) + Seq::<ChildV>::empty() =~= children_view(children));
        Ok(Block { children })
    }
}

impl CstParagraph {
    pub fn to_ast(&self) -> (r: Result<Paragraph, RuntimeError>)
        ensures
            r matches Ok(p) && p@ == paragraph_to_ast(self@),
    {
        let mut parameters: Vec<Parameter> = Vec::new();
        let mut i: usize = 0;
        while i < self.parameters.len()
            invariant
                0 <= i <= self.parameters.len(),
                parameters@.len() == i,
                forall|j: int|
                    0 <= j < i ==> (#[trigger] parameters@[j])@ == parameter_to_ast(
                        self.parameters@[j]@,
                    ),
            decreases self.parameters.len() - i,
        {
            parameters.push(self.parameters[i].to_ast());
            i += 1;
        }
        let block = match self.block.to_ast() {
            Ok(b) => b,
            Err(e) => return Err(e),
        };
        let p = Paragraph { name: self.name.clone(), parameters, block };
        assert(p@.parameters =~= paragraph_to_ast(self@).parameters);
        Ok(p)
    }
}

impl CstRoot {
    /// The story that the file holds: its paragraphs, in order.
    pub fn to_ast(&self) -> (r: Result<Story, RuntimeError>)
        ensures
            r matches Ok(s) && s@ == root_to_ast(self@),
    {
        let ghost nodes = self@.nodes;
        let mut paragraphs: Vec<Paragraph> = Vec::new();
        let mut i: usize = 0;
        assert(nodes.skip(0) =~= nodes);
        assert(Seq::<ParagraphV>::empty() + paragraphs_to_ast(nodes) =~= paragraphs_to_ast(nodes));
        while i < self.nodes.len()
            invariant
                0 <= i <= self.nodes.len(),
                nodes == self@.nodes,
                nodes.len() == self.nodes.len(),
                paragraphs@.map_values(|p: Paragraph| p@) + paragraphs_to_ast(nodes.skip(i as int))
                    == paragraphs_to_ast(nodes),
            decreases self.nodes.len() - i,
        {
            let ghost cur = nodes.skip(i as int);
            assert(cur.drop_first() =~= nodes.skip(i + 1));
            assert(cur[0] == cst_node_view(self.nodes@[i as int]));
            let ghost before = paragraphs@.map_values(|p: Paragraph| p@);
            if let CstNode::Paragraph(para) = &self.nodes[i] {
                let p = match para.to_ast() {
                    Ok(x) => x,
                    Err(e) => return Err(e),
                };
                paragraphs.push(p);
                assert(paragraphs@.map_values(|p: Paragraph| p@) =~= before.push(
                    paragraph_to_ast(para@),
                ));
                assert(paragraphs@.map_values(|p: Paragraph| p@) + paragraphs_to_ast(
                    nodes.skip(i + 1),
                ) =~= before + paragraphs_to_ast(cur));
            }
            i += 1;
        }
        assert(nodes.skip(i as int) =~= Seq::<CstNodeV>::empty());
        let s = Story { name: self.name.clone(), paragraphs };
        assert(s@.paragraphs =~= root_to_ast(self@).paragraphs);
        Ok(s)
    }
}

proof fn lemma_children_view_push(old: Vec<Child>, new: Vec<Child>, cv: ChildV)
    requires
        new@.len() == old@.len() + 1,
        forall|j: int| 0 <= j < old@.len() ==> new@[j] == old@[j],
        child_view(new@.last()) == cv,
    ensures
        children_view(new) == children_view(old).push(cv),
{
    assert(children_view(new) =~= children_view(old).push(cv));
}

} // verus!
