use vstd::prelude::*;

use crate::doc::{
    blocks_view, inlines_view, items_view, lemma_blocks_view_push,
    lemma_inlines_view_len, lemma_inlines_view_push, lemma_items_view_push, Block, BlockV,
    Blockquote, Body, CodeBlock, CodeLang, Document, Heading, HeadingLevel, Inline, InlineV, List,
    ListItem, ListType, Meta, Paragraph,
};
use crate::dom::{Node, NodeKind};
use crate::text::{blank, is_blank, str_eq};

verus! {

/// The tags that the conversion gives a meaning to.
#[derive(Debug, Clone, Copy, PartialEq, Eq, Structural)]
pub enum Tag {
    Para,
    Heading(HeadingLevel),
    List(ListType),
    Item,
    Quote,
    Rule,
    Pre,
    Italic,
    Bold,
    Code,
    Anchor,
    /// Any other tag, `div` included: its children are walked as if it
    /// were absent.
    Other,
}

pub open spec fn tag_of(name: Seq<char>) -> Tag {
    if name == "p"@ {
        Tag::Para
    } else if name == "h1"@ {
        Tag::Heading(HeadingLevel::H1)
    } else if name == "h2"@ {
        Tag::Heading(HeadingLevel::H2)
    } else if name == "h3"@ {
        Tag::Heading(HeadingLevel::H3)
    } else if name == "h4"@ {
        Tag::Heading(HeadingLevel::H4)
    } else if name == "h5"@ {
        Tag::Heading(HeadingLevel::H5)
    } else if name == "h6"@ {
        Tag::Heading(HeadingLevel::H6)
    } else if name == "ol"@ {
        Tag::List(ListType::Ordered)
    } else if name == "ul"@ {
        Tag::List(ListType::Unordered)
    } else if name == "li"@ {
        Tag::Item
    } else if name == "blockquote"@ {
        Tag::Quote
    } else if name == "hr"@ {
        Tag::Rule
    } else if name == "pre"@ {
        Tag::Pre
    } else if name == "em"@ || name == "i"@ {
        Tag::Italic
    } else if name == "strong"@ || name == "b"@ {
        Tag::Bold
    } else if name == "code"@ {
        Tag::Code
    } else if name == "a"@ {
        Tag::Anchor
    } else {
        Tag::Other
    }
}

/// A child of a block container that joins the current run of inline
/// content: an inline element, or text that is not blank.
pub open spec fn bears_inline(n: Node) -> bool {
    match n.kind {
        NodeKind::Element(name) => {
            let t = tag_of(name@);
            t == Tag::Anchor || t == Tag::Code || t == Tag::Italic || t == Tag::Bold
        },
        NodeKind::Text(s) => !is_blank(s@),
        NodeKind::Other => false,
    }
}

/// Blank text between the children of a block container: skipped without
/// ending the current run.
pub open spec fn is_gap(n: Node) -> bool {
    match n.kind {
        NodeKind::Text(s) => is_blank(s@),
        _ => false,
    }
}

/// The blocks, followed by a paragraph of the run when the run is not empty.
pub open spec fn close_run(blocks: Seq<BlockV>, run: Seq<InlineV>) -> Seq<BlockV> {
    if run.len() > 0 {
        blocks.push(BlockV::Paragraph(run))
    } else {
        blocks
    }
}

/// What a node adds to an inline accumulator.
pub open spec fn inline_of(n: Node) -> Seq<InlineV>
    decreases n,
{
    let kids = inlines_of(n.children@);
    match n.kind {
        NodeKind::Text(s) => seq![InlineV::Text(s@)] + kids,
        NodeKind::Element(name) => match tag_of(name@) {
            Tag::Rule => Seq::empty(),
            Tag::Italic => seq![InlineV::Italic(kids)],
            Tag::Bold => seq![InlineV::Bold(kids)],
            Tag::Code => seq![InlineV::Code(kids)],
            _ => kids,
        },
        NodeKind::Other => kids,
    }
}

/// What a sequence of sibling nodes adds to an inline accumulator.
pub open spec fn inlines_of(s: Seq<Node>) -> Seq<InlineV>
    decreases s,
{
    if s.len() == 0 {
        Seq::empty()
    } else {
        inlines_of(s.subrange(0, s.len() - 1)) + inline_of(s[s.len() - 1])
    }
}

/// What a node adds to a block accumulator.
pub open spec fn block_of(n: Node) -> Seq<BlockV>
    decreases n,
{
    match n.kind {
        NodeKind::Element(name) => match tag_of(name@) {
            Tag::Para => seq![BlockV::Paragraph(inlines_of(n.children@))],
            Tag::Heading(l) => seq![BlockV::Heading(l, inlines_of(n.children@))],
            Tag::List(k) => seq![BlockV::List(k, items_of(n.children@))],
            Tag::Quote => {
                let g = grouped_state(n.children@);
                seq![BlockV::Blockquote(close_run(g.0, g.1))]
            },
            Tag::Rule => seq![BlockV::ThematicBreak],
            Tag::Pre => seq![BlockV::CodeBlock(CodeLang::Unknown, inlines_of(n.children@))],
            _ => blocks_of(n.children@),
        },
        _ => blocks_of(n.children@),
    }
}

/// What a sequence of sibling nodes adds to a block accumulator.
pub open spec fn blocks_of(s: Seq<Node>) -> Seq<BlockV>
    decreases s,
{
    if s.len() == 0 {
        Seq::empty()
    } else {
        blocks_of(s.subrange(0, s.len() - 1)) + block_of(s[s.len() - 1])
    }
}

/// What a node adds to a list-item accumulator.
pub open spec fn item_of(n: Node) -> Seq<Seq<BlockV>>
    decreases n,
{
    match n.kind {
        NodeKind::Element(name) => match tag_of(name@) {
            Tag::Item => {
                let g = grouped_state(n.children@);
                seq![close_run(g.0, g.1)]
            },
            Tag::Rule => Seq::empty(),
            _ => items_of(n.children@),
        },
        _ => items_of(n.children@),
    }
}

/// What a sequence of sibling nodes adds to a list-item accumulator.
pub open spec fn items_of(s: Seq<Node>) -> Seq<Seq<BlockV>>
    decreases s,
{
    if s.len() == 0 {
        Seq::empty()
    } else {
        items_of(s.subrange(0, s.len() - 1)) + item_of(s[s.len() - 1])
    }
}

/// The children of a block container, regrouped: the blocks finished so far
/// and the run of inline content not yet closed into a paragraph.
pub open spec fn grouped_state(s: Seq<Node>) -> (Seq<BlockV>, Seq<InlineV>)
    decreases s,
{
    if s.len() == 0 {
        (Seq::empty(), Seq::empty())
    } else {
        let prev = grouped_state(s.subrange(0, s.len() - 1));
        let c = s[s.len() - 1];
        if bears_inline(c) {
            (prev.0, prev.1 + inline_of(c))
        } else if is_gap(c) {
            prev
        } else {
            (close_run(prev.0, prev.1) + block_of(c), Seq::empty())
        }
    }
}

/// The blocks that the children of a list item or a blockquote become.
pub open spec fn grouped(s: Seq<Node>) -> Seq<BlockV> {
    let g = grouped_state(s);
    close_run(g.0, g.1)
}

fn classify(name: &str) -> (t: Tag)
    ensures
        t == tag_of(name@),
{
    if str_eq(name, "p") {
        Tag::Para
    } else if str_eq(name, "h1") {
        Tag::Heading(HeadingLevel::H1)
    } else if str_eq(name, "h2") {
        Tag::Heading(HeadingLevel::H2)
    } else if str_eq(name, "h3") {
        Tag::Heading(HeadingLevel::H3)
    } else if str_eq(name, "h4") {
        Tag::Heading(HeadingLevel::H4)
    } else if str_eq(name, "h5") {
        Tag::Heading(HeadingLevel::H5)
    } else if str_eq(name, "h6") {
        Tag::Heading(HeadingLevel::H6)
    } else if str_eq(name, "ol") {
        Tag::List(ListType::Ordered)
    } else if str_eq(name, "ul") {
        Tag::List(ListType::Unordered)
    } else if str_eq(name, "li") {
        Tag::Item
    } else if str_eq(name, "blockquote") {
        Tag::Quote
    } else if str_eq(name, "hr") {
        Tag::Rule
    } else if str_eq(name, "pre") {
        Tag::Pre
    } else if str_eq(name, "em") || str_eq(name, "i") {
        Tag::Italic
    } else if str_eq(name, "strong") || str_eq(name, "b") {
        Tag::Bold
    } else if str_eq(name, "code") {
        Tag::Code
    } else if str_eq(name, "a") {
        Tag::Anchor
    } else {
        Tag::Other
    }
}

/// Walks `node` while collecting inlines.
fn walk_inline(node: &Node, acc: &mut Vec<Inline>)
    ensures
        inlines_view(final(acc)@) == inlines_view(old(acc)@) + inline_of(*node),
    decreases node, 1nat,
{
    match &node.kind {
        NodeKind::Text(contents) => {
            handle_text(contents, acc);
            walk_inline_children(&node.children, acc);
            proof {
                assert(inlines_view(old(acc)@) + inline_of(*node) =~= inlines_view(old(acc)@)
                    + seq![InlineV::Text(contents@)] + inlines_of(node.children@));
            }
        },
        NodeKind::Element(name) => {
            let tag = classify(name.as_str());
            match tag {
                Tag::Rule => {
                    assert(inline_of(*node) =~= Seq::empty());
                    assert(inlines_view(old(acc)@) + inline_of(*node) =~= inlines_view(old(acc)@));
                },
                Tag::Italic | Tag::Bold | Tag::Code => {
                    handle_emph(node, tag, acc);
                },
                _ => {
                    walk_inline_children(&node.children, acc);
                },
            }
        },
        NodeKind::Other => {
            walk_inline_children(&node.children, acc);
        },
    }
}

/// Walks each child in order while collecting inlines.
fn walk_inline_children(children: &Vec<Node>, acc: &mut Vec<Inline>)
    ensures
        inlines_view(final(acc)@) == inlines_view(old(acc)@) + inlines_of(children@),
    decreases children, 0nat,
{
    let mut i: usize = 0;
    assert(inlines_view(acc@) =~= inlines_view(old(acc)@) + inlines_of(children@.subrange(0, 0)));
    while i < children.len()
        invariant
            i <= children@.len(),
            inlines_view(acc@) == inlines_view(old(acc)@) + inlines_of(children@.subrange(0, i as int)),
        decreases children@.len() - i,
    {
        let ghost before = inlines_view(acc@);
        walk_inline(&children[i], acc);
        proof {
            let pre = children@.subrange(0, i as int);
            let next = children@.subrange(0, i + 1);
            assert(next.subrange(0, i as int) =~= pre);
            assert(next[i as int] == children@[i as int]);
            assert(inlines_view(acc@) =~= inlines_view(old(acc)@) + inlines_of(next));
        }
        i = i + 1;
    }
    assert(children@.subrange(0, children@.len() as int) =~= children@);
}

/// Appends the text as an inline.
fn handle_text(contents: &String, acc: &mut Vec<Inline>)
    ensures
        inlines_view(final(acc)@) == inlines_view(old(acc)@).push(InlineV::Text(contents@)),
{
    let text = contents.clone();
    proof {
        lemma_inlines_view_push(acc@, Inline::Text(text));
    }
    acc.push(Inline::Text(text));
}

/// Collects the children of an emphasis or code span as its own inlines and
/// appends the span.
fn handle_emph(node: &Node, tag: Tag, acc: &mut Vec<Inline>)
    requires
        node.kind matches NodeKind::Element(name) && tag == tag_of(name@),
        tag == Tag::Italic || tag == Tag::Bold || tag == Tag::Code,
    ensures
        inlines_view(final(acc)@) == inlines_view(old(acc)@) + inline_of(*node),
    decreases node, 0nat,
{
    let mut inner: Vec<Inline> = Vec::new();
    walk_inline_children(&node.children, &mut inner);
    assert(inlines_view(inner@) =~= inlines_of(node.children@)) by {
        assert(inlines_view(Seq::<Inline>::empty()) =~= Seq::<InlineV>::empty());
    }
    let span = match tag {
        Tag::Italic => Inline::Italic(inner),
        Tag::Bold => Inline::Bold(inner),
        _ => Inline::Code(inner),
    };
    proof {
        lemma_inlines_view_push(acc@, span);
    }
    acc.push(span);
    assert(inlines_view(acc@) =~= inlines_view(old(acc)@) + inline_of(*node));
}

/// Walks `node` while collecting blocks.
fn walk_block(node: &Node, acc: &mut Vec<Block>)
    ensures
        blocks_view(final(acc)@) == blocks_view(old(acc)@) + block_of(*node),
    decreases node, 2nat,
{
    match &node.kind {
        NodeKind::Element(name) => {
            let tag = classify(name.as_str());
            match tag {
                Tag::Para => handle_para(node, acc),
                Tag::Heading(level) => handle_heading(node, level, acc),
                Tag::List(kind) => handle_list(node, kind, acc),
                Tag::Quote => handle_blockquote(node, acc),
                Tag::Rule => handle_thematic_break(acc),
                Tag::Pre => handle_pre(node, acc),
                _ => walk_children(&node.children, acc),
            }
        },
        _ => walk_children(&node.children, acc),
    }
}

/// Walks each child in order while collecting blocks.
fn walk_children(children: &Vec<Node>, acc: &mut Vec<Block>)
    ensures
        blocks_view(final(acc)@) == blocks_view(old(acc)@) + blocks_of(children@),
    decreases children, 0nat,
{
    let mut i: usize = 0;
    assert(blocks_view(acc@) =~= blocks_view(old(acc)@) + blocks_of(children@.subrange(0, 0)));
    while i < children.len()
        invariant
            i <= children@.len(),
            blocks_view(acc@) == blocks_view(old(acc)@) + blocks_of(children@.subrange(0, i as int)),
        decreases children@.len() - i,
    {
        walk_block(&children[i], acc);
        proof {
            let pre = children@.subrange(0, i as int);
            let next = children@.subrange(0, i + 1);
            assert(next.subrange(0, i as int) =~= pre);
            assert(next[i as int] == children@[i as int]);
            assert(blocks_view(acc@) =~= blocks_view(old(acc)@) + blocks_of(next));
        }
        i = i + 1;
    }
    assert(children@.subrange(0, children@.len() as int) =~= children@);
}

/// Walks `node` while collecting list items.
fn walk_item(node: &Node, acc: &mut Vec<ListItem>)
    ensures
        items_view(final(acc)@) == items_view(old(acc)@) + item_of(*node),
    decreases node, 2nat,
{
    match &node.kind {
        NodeKind::Element(name) => {
            let tag = classify(name.as_str());
            match tag {
                Tag::Item => handle_list_item(node, acc),
                Tag::Rule => {
                    assert(items_view(old(acc)@) + item_of(*node) =~= items_view(old(acc)@));
                },
                _ => walk_item_children(&node.children, acc),
            }
        },
        _ => walk_item_children(&node.children, acc),
    }
}

/// Walks each child in order while collecting list items.
fn walk_item_children(children: &Vec<Node>, acc: &mut Vec<ListItem>)
    ensures
        items_view(final(acc)@) == items_view(old(acc)@) + items_of(children@),
    decreases children, 0nat,
{
    let mut i: usize = 0;
    assert(items_view(acc@) =~= items_view(old(acc)@) + items_of(children@.subrange(0, 0)));
    while i < children.len()
        invariant
            i <= children@.len(),
            items_view(acc@) == items_view(old(acc)@) + items_of(children@.subrange(0, i as int)),
        decreases children@.len() - i,
    {
        walk_item(&children[i], acc);
        proof {
            let pre = children@.subrange(0, i as int);
            let next = children@.subrange(0, i + 1);
            assert(next.subrange(0, i as int) =~= pre);
            assert(next[i as int] == children@[i as int]);
            assert(items_view(acc@) =~= items_view(old(acc)@) + items_of(next));
        }
        i = i + 1;
    }
    assert(children@.subrange(0, children@.len() as int) =~= children@);
}

/// Whether a child of a block container joins the current run of inline
/// content.
fn is_inline_element(node: &Node) -> (r: bool)
    ensures
        r == bears_inline(*node),
{
    match &node.kind {
        NodeKind::Element(name) => {
            let tag = classify(name.as_str());
            tag == Tag::Anchor || tag == Tag::Code || tag == Tag::Italic || tag == Tag::Bold
        },
        NodeKind::Text(contents) => !blank(contents.as_str()),
        NodeKind::Other => false,
    }
}

/// Whether a child of a block container is blank text.
fn is_blank_text(node: &Node) -> (r: bool)
    ensures
        r == is_gap(*node),
{
    match &node.kind {
        NodeKind::Text(contents) => blank(contents.as_str()),
        _ => false,
    }
}

/// Appends a paragraph of `run` when `run` is not empty, and leaves `run`
/// empty.
fn close_paragraph(acc: &mut Vec<Block>, run: &mut Vec<Inline>)
    ensures
        blocks_view(final(acc)@) == close_run(blocks_view(old(acc)@), inlines_view(old(run)@)),
        final(run)@.len() == 0,
{
    proof {
        lemma_inlines_view_len(run@);
    }
    if run.len() > 0 {
        let mut inlines: Vec<Inline> = Vec::new();
        inlines.append(run);
        assert(inlines@ =~= old(run)@);
        let para = Block::Paragraph(Paragraph { inlines });
        proof {
            lemma_blocks_view_push(acc@, para);
        }
        acc.push(para);
    }
}

/// Walks the children of a list item or a blockquote while collecting blocks:
/// each run of inline content between blocks becomes a paragraph of its own.
fn walk_block_children(children: &Vec<Node>, acc: &mut Vec<Block>)
    ensures
        blocks_view(final(acc)@) == blocks_view(old(acc)@) + grouped(children@),
    decreases children, 0nat,
{
    let mut run: Vec<Inline> = Vec::new();
    let mut i: usize = 0;
    assert(blocks_view(acc@) =~= blocks_view(old(acc)@) + grouped_state(
        children@.subrange(0, 0),
    ).0);
    while i < children.len()
        invariant
            i <= children@.len(),
            blocks_view(acc@) == blocks_view(old(acc)@) + grouped_state(
                children@.subrange(0, i as int),
            ).0,
            inlines_view(run@) == grouped_state(children@.subrange(0, i as int)).1,
        decreases children@.len() - i,
    {
        let child = &children[i];
        let ghost pre = children@.subrange(0, i as int);
        let ghost next = children@.subrange(0, i + 1);
        proof {
            assert(next.subrange(0, i as int) =~= pre);
            assert(next[i as int] == children@[i as int]);
        }
        if is_inline_element(child) {
            walk_inline(child, &mut run);
        } else if is_blank_text(child) {
        } else {
            close_paragraph(acc, &mut run);
            walk_block(child, acc);
            proof {
                lemma_inlines_view_len(run@);
                assert(inlines_view(run@) =~= Seq::<InlineV>::empty());
                assert(blocks_view(acc@) =~= blocks_view(old(acc)@) + grouped_state(next).0);
            }
        }
        i = i + 1;
    }
    assert(children@.subrange(0, children@.len() as int) =~= children@);
    close_paragraph(acc, &mut run);
    proof {
        let g = grouped_state(children@);
        assert(close_run(blocks_view(old(acc)@) + g.0, g.1) =~= blocks_view(old(acc)@) + close_run(g.0, g.1));
    }
}

/// Collects the children as inlines into a new paragraph.
fn handle_para(node: &Node, acc: &mut Vec<Block>)
    requires
        node.kind matches NodeKind::Element(name) && tag_of(name@) == Tag::Para,
    ensures
        blocks_view(final(acc)@) == blocks_view(old(acc)@) + block_of(*node),
{
    let mut inlines: Vec<Inline> = Vec::new();
    walk_inline_children(&node.children, &mut inlines);
    assert(inlines_view(inlines@) =~= inlines_of(node.children@));
    let block = Block::Paragraph(Paragraph { inlines });
    proof {
        lemma_blocks_view_push(acc@, block);
    }
    acc.push(block);
    assert(blocks_view(acc@) =~= blocks_view(old(acc)@) + block_of(*node));
}

/// Collects the children as inlines into a new heading of the given level.
fn handle_heading(node: &Node, level: HeadingLevel, acc: &mut Vec<Block>)
    requires
        node.kind matches NodeKind::Element(name) && tag_of(name@) == Tag::Heading(level),
    ensures
        blocks_view(final(acc)@) == blocks_view(old(acc)@) + block_of(*node),
{
    let mut inlines: Vec<Inline> = Vec::new();
    walk_inline_children(&node.children, &mut inlines);
    assert(inlines_view(inlines@) =~= inlines_of(node.children@));
    let block = Block::Heading(Heading { inlines, level });
    proof {
        lemma_blocks_view_push(acc@, block);
    }
    acc.push(block);
    assert(blocks_view(acc@) =~= blocks_view(old(acc)@) + block_of(*node));
}

/// Collects the children as inlines into a new code block.
fn handle_pre(node: &Node, acc: &mut Vec<Block>)
    requires
        node.kind matches NodeKind::Element(name) && tag_of(name@) == Tag::Pre,
    ensures
        blocks_view(final(acc)@) == blocks_view(old(acc)@) + block_of(*node),
{
    let mut inlines: Vec<Inline> = Vec::new();
    walk_inline_children(&node.children, &mut inlines);
    assert(inlines_view(inlines@) =~= inlines_of(node.children@));
    let block = Block::CodeBlock(CodeBlock { lang: CodeLang::Unknown, inlines });
    proof {
        lemma_blocks_view_push(acc@, block);
    }
    acc.push(block);
    assert(blocks_view(acc@) =~= blocks_view(old(acc)@) + block_of(*node));
}

/// Collects the children as list items into a new list of the given kind.
fn handle_list(node: &Node, type_: ListType, acc: &mut Vec<Block>)
    requires
        node.kind matches NodeKind::Element(name) && tag_of(name@) == Tag::List(type_),
    ensures
        blocks_view(final(acc)@) == blocks_view(old(acc)@) + block_of(*node),
    decreases node, 1nat,
{
    let mut items: Vec<ListItem> = Vec::new();
    walk_item_children(&node.children, &mut items);
    assert(items_view(items@) =~= items_of(node.children@));
    let block = Block::List(List { type_, items });
    proof {
        lemma_blocks_view_push(acc@, block);
    }
    acc.push(block);
    assert(blocks_view(acc@) =~= blocks_view(old(acc)@) + block_of(*node));
}

/// Regroups the children into the blocks of a new list item.
fn handle_list_item(node: &Node, acc: &mut Vec<ListItem>)
    requires
        node.kind matches NodeKind::Element(name) && tag_of(name@) == Tag::Item,
    ensures
        items_view(final(acc)@) == items_view(old(acc)@) + item_of(*node),
    decreases node, 1nat,
{
    let mut blocks: Vec<Block> = Vec::new();
    walk_block_children(&node.children, &mut blocks);
    assert(blocks_view(blocks@) =~= grouped(node.children@));
    let item = ListItem { blocks };
    proof {
        lemma_items_view_push(acc@, item);
    }
    acc.push(item);
    assert(items_view(acc@) =~= items_view(old(acc)@) + item_of(*node));
}

/// Regroups the children into the blocks of a new blockquote.
fn handle_blockquote(node: &Node, acc: &mut Vec<Block>)
    requires
        node.kind matches NodeKind::Element(name) && tag_of(name@) == Tag::Quote,
    ensures
        blocks_view(final(acc)@) == blocks_view(old(acc)@) + block_of(*node),
    decreases node, 1nat,
{
    let mut blocks: Vec<Block> = Vec::new();
    walk_block_children(&node.children, &mut blocks);
    assert(blocks_view(blocks@) =~= grouped(node.children@));
    let block = Block::Blockquote(Blockquote { blocks });
    proof {
        lemma_blocks_view_push(acc@, block);
    }
    acc.push(block);
    assert(blocks_view(acc@) =~= blocks_view(old(acc)@) + block_of(*node));
}

/// Appends a thematic break.
fn handle_thematic_break(acc: &mut Vec<Block>)
    ensures
        blocks_view(final(acc)@) == blocks_view(old(acc)@).push(BlockV::ThematicBreak),
{
    proof {
        lemma_blocks_view_push(acc@, Block::ThematicBreak);
    }
    acc.push(Block::ThematicBreak);
}

/// Converts a parsed tree into a document that records where it came from.
pub fn from_dom(origin_url: url::Url, dom: &Node) -> (r: Document)
    ensures
        blocks_view(r.body.blocks@) == block_of(*dom),
        r.meta.origin_url == origin_url,
{
    let body = body_from_dom(dom);
    let meta = Meta { origin_url };
    Document { meta, body }
}

/// Converts a parsed tree into the body of a document: the tree is walked
/// from its root while collecting blocks.
pub fn body_from_dom(dom: &Node) -> (r: Body)
    ensures
        blocks_view(r.blocks@) == block_of(*dom),
{
    let mut blocks: Vec<Block> = Vec::new();
    walk_block(dom, &mut blocks);
    assert(blocks_view(blocks@) =~= block_of(*dom));
    Body { blocks }
}

/// Document order is kept in inline content: the inlines of two runs of
/// sibling nodes, one after the other, are those of the first run followed by
/// those of the second.
pub proof fn lemma_inlines_order(a: Seq<Node>, b: Seq<Node>)
    ensures
        inlines_of(a + b) == inlines_of(a) + inlines_of(b),
    decreases b.len(),
{
    if b.len() == 0 {
        assert(a + b =~= a);
        assert(inlines_of(a) + inlines_of(b) =~= inlines_of(a));
    } else {
        let b0 = b.subrange(0, b.len() - 1);
        lemma_inlines_order(a, b0);
        assert((a + b).subrange(0, (a + b).len() - 1) =~= a + b0);
        assert((a + b)[(a + b).len() - 1] == b[b.len() - 1]);
        assert(inlines_of(a + b) =~= inlines_of(a) + inlines_of(b));
    }
}

/// Document order is kept among blocks: the blocks of two runs of sibling
/// nodes, one after the other, are those of the first run followed by those
/// of the second.
pub proof fn lemma_blocks_order(a: Seq<Node>, b: Seq<Node>)
    ensures
        blocks_of(a + b) == blocks_of(a) + blocks_of(b),
    decreases b.len(),
{
    if b.len() == 0 {
        assert(a + b =~= a);
        assert(blocks_of(a) + blocks_of(b) =~= blocks_of(a));
    } else {
        let b0 = b.subrange(0, b.len() - 1);
        lemma_blocks_order(a, b0);
        assert((a + b).subrange(0, (a + b).len() - 1) =~= a + b0);
        assert((a + b)[(a + b).len() - 1] == b[b.len() - 1]);
        assert(blocks_of(a + b) =~= blocks_of(a) + blocks_of(b));
    }
}

/// Document order is kept among list items: the items of two runs of sibling
/// nodes, one after the other, are those of the first run followed by those
/// of the second.
pub proof fn lemma_items_order(a: Seq<Node>, b: Seq<Node>)
    ensures
        items_of(a + b) == items_of(a) + items_of(b),
    decreases b.len(),
{
    if b.len() == 0 {
        assert(a + b =~= a);
        assert(items_of(a) + items_of(b) =~= items_of(a));
    } else {
        let b0 = b.subrange(0, b.len() - 1);
        lemma_items_order(a, b0);
        assert((a + b).subrange(0, (a + b).len() - 1) =~= a + b0);
        assert((a + b)[(a + b).len() - 1] == b[b.len() - 1]);
        assert(items_of(a + b) =~= items_of(a) + items_of(b));
    }
}

/// Children that are all block content are regrouped into exactly the blocks
/// they give one by one, in document order: no paragraph is synthesized.
pub proof fn lemma_grouped_blocks_only(s: Seq<Node>)
    requires
        forall|i: int| 0 <= i < s.len() ==> !bears_inline(#[trigger] s[i]) && !is_gap(s[i]),
    ensures
        grouped(s) == blocks_of(s),
{
    lemma_grouped_state_blocks_only(s);
}

proof fn lemma_grouped_state_blocks_only(s: Seq<Node>)
    requires
        forall|i: int| 0 <= i < s.len() ==> !bears_inline(#[trigger] s[i]) && !is_gap(s[i]),
    ensures
        grouped_state(s) == (blocks_of(s), Seq::<InlineV>::empty()),
    decreases s.len(),
{
    if s.len() > 0 {
        let pre = s.subrange(0, s.len() - 1);
        assert forall|i: int| 0 <= i < pre.len() implies !bears_inline(#[trigger] pre[i]) && !is_gap(
            pre[i],
        ) by {
            assert(pre[i] == s[i]);
        }
        lemma_grouped_state_blocks_only(pre);
        assert(!bears_inline(s[s.len() - 1]) && !is_gap(s[s.len() - 1]));
    }
}

/// A list item or blockquote whose children are all blank text holds no
/// block: blank text never becomes a paragraph.
pub proof fn lemma_grouped_blank(s: Seq<Node>)
    requires
        forall|i: int| 0 <= i < s.len() ==> is_gap(#[trigger] s[i]),
    ensures
        grouped(s) == Seq::<BlockV>::empty(),
{
    lemma_grouped_state_blank(s);
}

proof fn lemma_grouped_state_blank(s: Seq<Node>)
    requires
        forall|i: int| 0 <= i < s.len() ==> is_gap(#[trigger] s[i]),
    ensures
        grouped_state(s) == (Seq::<BlockV>::empty(), Seq::<InlineV>::empty()),
    decreases s.len(),
{
    if s.len() > 0 {
        let pre = s.subrange(0, s.len() - 1);
        assert forall|i: int| 0 <= i < pre.len() implies is_gap(#[trigger] pre[i]) by {
            assert(pre[i] == s[i]);
        }
        lemma_grouped_state_blank(pre);
        let c = s[s.len() - 1];
        assert(is_gap(c));
        assert(!bears_inline(c));
    }
}

} // verus!
