use vstd::prelude::*;

verus! {

/// The opaque origin location of a document; carried through, never read.
#[verifier::external_type_specification]
#[verifier::external_body]
pub struct ExUrl(url::Url);

#[derive(Debug)]
pub struct Document {
    pub meta: Meta,
    pub body: Body,
}

#[derive(Debug)]
pub struct Meta {
    pub origin_url: url::Url,
}

#[derive(Debug, PartialEq)]
pub struct Body {
    pub blocks: Vec<Block>,
}

#[derive(Debug, PartialEq)]
pub enum Block {
    Heading(Heading),
    Paragraph(Paragraph),
    List(List),
    Blockquote(Blockquote),
    ThematicBreak,
    CodeBlock(CodeBlock),
}

#[derive(Debug, PartialEq)]
pub struct Heading {
    pub inlines: Vec<Inline>,
    pub level: HeadingLevel,
}

#[derive(Debug, Clone, Copy, PartialEq, Eq, Structural)]
pub enum HeadingLevel {
    H1,
    H2,
    H3,
    H4,
    H5,
    H6,
}

#[derive(Debug, PartialEq)]
pub struct Paragraph {
    pub inlines: Vec<Inline>,
}

#[derive(Debug, PartialEq)]
pub enum Inline {
    Text(String),
    Bold(Vec<Inline>),
    Italic(Vec<Inline>),
    Code(Vec<Inline>),
}

#[derive(Debug, PartialEq)]
pub struct List {
    pub type_: ListType,
    pub items: Vec<ListItem>,
}

#[derive(Debug, Clone, Copy, PartialEq, Eq, Structural)]
pub enum ListType {
    Ordered,
    Unordered,
}

#[derive(Debug, PartialEq)]
pub struct ListItem {
    pub blocks: Vec<Block>,
}

#[derive(Debug, PartialEq)]
pub struct Blockquote {
    pub blocks: Vec<Block>,
}

#[derive(Debug, PartialEq)]
pub struct CodeBlock {
    pub lang: CodeLang,
    pub inlines: Vec<Inline>,
}

#[derive(Debug, Clone, Copy, PartialEq, Eq, Structural)]
pub enum CodeLang {
    Rust,
    Unknown,
}

/// The mathematical value of an [`Inline`]: the same tree, with sequences in
/// place of vectors.
pub ghost enum InlineV {
    Text(Seq<char>),
    Bold(Seq<InlineV>),
    Italic(Seq<InlineV>),
    Code(Seq<InlineV>),
}

/// The mathematical value of a [`Block`]. A list item is the sequence of its
/// blocks.
pub ghost enum BlockV {
    Heading(HeadingLevel, Seq<InlineV>),
    Paragraph(Seq<InlineV>),
    List(ListType, Seq<Seq<BlockV>>),
    Blockquote(Seq<BlockV>),
    ThematicBreak,
    CodeBlock(CodeLang, Seq<InlineV>),
}

pub open spec fn inline_view(i: Inline) -> InlineV
    decreases i,
{
    match i {
        Inline::Text(s) => InlineV::Text(s@),
        Inline::Bold(v) => InlineV::Bold(inlines_view(v@)),
        Inline::Italic(v) => InlineV::Italic(inlines_view(v@)),
        Inline::Code(v) => InlineV::Code(inlines_view(v@)),
    }
}

pub open spec fn inlines_view(s: Seq<Inline>) -> Seq<InlineV>
    decreases s,
{
    if s.len() == 0 {
        Seq::empty()
    } else {
        inlines_view(s.subrange(0, s.len() - 1)).push(inline_view(s[s.len() - 1]))
    }
}

pub open spec fn block_view(b: Block) -> BlockV
    decreases b,
{
    match b {
        Block::Heading(h) => BlockV::Heading(h.level, inlines_view(h.inlines@)),
        Block::Paragraph(p) => BlockV::Paragraph(inlines_view(p.inlines@)),
        Block::List(l) => BlockV::List(l.type_, items_view(l.items@)),
        Block::Blockquote(q) => BlockV::Blockquote(blocks_view(q.blocks@)),
        Block::ThematicBreak => BlockV::ThematicBreak,
        Block::CodeBlock(c) => BlockV::CodeBlock(c.lang, inlines_view(c.inlines@)),
    }
}

pub open spec fn blocks_view(s: Seq<Block>) -> Seq<BlockV>
    decreases s,
{
    if s.len() == 0 {
        Seq::empty()
    } else {
        blocks_view(s.subrange(0, s.len() - 1)).push(block_view(s[s.len() - 1]))
    }
}

pub open spec fn items_view(s: Seq<ListItem>) -> Seq<Seq<BlockV>>
    decreases s,
{
    if s.len() == 0 {
        Seq::empty()
    } else {
        items_view(s.subrange(0, s.len() - 1)).push(blocks_view(s[s.len() - 1].blocks@))
    }
}

pub proof fn lemma_inlines_view_push(s: Seq<Inline>, x: Inline)
    ensures
        inlines_view(s.push(x)) == inlines_view(s).push(inline_view(x)),
{
    assert(s.push(x).subrange(0, s.len() as int) =~= s);
}

pub proof fn lemma_blocks_view_push(s: Seq<Block>, x: Block)
    ensures
        blocks_view(s.push(x)) == blocks_view(s).push(block_view(x)),
{
    assert(s.push(x).subrange(0, s.len() as int) =~= s);
}

pub proof fn lemma_items_view_push(s: Seq<ListItem>, x: ListItem)
    ensures
        items_view(s.push(x)) == items_view(s).push(blocks_view(x.blocks@)),
{
    assert(s.push(x).subrange(0, s.len() as int) =~= s);
}

pub proof fn lemma_inlines_view_len(s: Seq<Inline>)
    ensures
        inlines_view(s).len() == s.len(),
    decreases s.len(),
{
    if s.len() > 0 {
        lemma_inlines_view_len(s.subrange(0, s.len() - 1));
    }
}

} // verus!
