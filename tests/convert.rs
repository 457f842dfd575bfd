use docmodel::convert::{body_from_dom, from_dom};
use docmodel::doc::{
    Block, Blockquote, CodeBlock, CodeLang, Heading, HeadingLevel, Inline, List, ListItem,
    ListType, Paragraph,
};
use docmodel::dom::{Node, NodeKind};

fn el(name: &str, children: Vec<Node>) -> Node {
    Node::element(name, children)
}

fn tx(s: &str) -> Node {
    Node::text(s)
}

fn text(s: &str) -> Inline {
    Inline::Text(s.to_string())
}

fn para(inlines: Vec<Inline>) -> Block {
    Block::Paragraph(Paragraph { inlines })
}

fn root(children: Vec<Node>) -> Node {
    Node { kind: NodeKind::Other, children }
}

fn list_of(items: Vec<Node>) -> Vec<ListItem> {
    let body = body_from_dom(&root(vec![el("ul", items)]));
    match body.blocks.into_iter().next() {
        Some(Block::List(l)) => l.items,
        other => panic!("expected a list, got {:?}", other),
    }
}

#[test]
fn list_item_synthesizes_paragraph_before_real_one() {
    let items = list_of(vec![el(
        "li",
        vec![tx("loose text"), el("em", vec![tx("x")]), el("p", vec![tx("real para")])],
    )]);
    assert_eq!(
        items,
        vec![ListItem {
            blocks: vec![
                para(vec![text("loose text"), Inline::Italic(vec![text("x")])]),
                para(vec![text("real para")]),
            ],
        }]
    );
}

#[test]
fn whitespace_only_list_item_has_no_blocks() {
    let items = list_of(vec![el("li", vec![tx("   ")])]);
    assert_eq!(items, vec![ListItem { blocks: vec![] }]);
}

#[test]
fn blank_text_between_inlines_keeps_one_paragraph() {
    let items = list_of(vec![el(
        "li",
        vec![el("em", vec![tx("a")]), tx(" \n\t"), el("b", vec![tx("b")])],
    )]);
    assert_eq!(
        items,
        vec![ListItem {
            blocks: vec![para(vec![Inline::Italic(vec![text("a")]), Inline::Bold(vec![text("b")])])],
        }]
    );
}

#[test]
fn trailing_run_becomes_paragraph() {
    let items = list_of(vec![el("li", vec![el("hr", vec![]), tx("after")])]);
    assert_eq!(
        items,
        vec![ListItem { blocks: vec![Block::ThematicBreak, para(vec![text("after")])] }]
    );
}

#[test]
fn heading_level_is_kept() {
    let body = body_from_dom(&root(vec![el("h3", vec![tx("Title")])]));
    assert_eq!(
        body.blocks,
        vec![Block::Heading(Heading { inlines: vec![text("Title")], level: HeadingLevel::H3 })]
    );
}

#[test]
fn every_heading_level() {
    let names = ["h1", "h2", "h3", "h4", "h5", "h6"];
    let levels = [
        HeadingLevel::H1,
        HeadingLevel::H2,
        HeadingLevel::H3,
        HeadingLevel::H4,
        HeadingLevel::H5,
        HeadingLevel::H6,
    ];
    for (name, level) in names.iter().zip(levels.iter()) {
        let body = body_from_dom(&el(name, vec![tx("t")]));
        assert_eq!(
            body.blocks,
            vec![Block::Heading(Heading { inlines: vec![text("t")], level: *level })]
        );
    }
}

#[test]
fn nested_emphasis_converts() {
    let body = body_from_dom(&root(vec![el(
        "p",
        vec![el("strong", vec![tx("a"), el("em", vec![tx("b")])])],
    )]));
    assert_eq!(
        body.blocks,
        vec![para(vec![Inline::Bold(vec![text("a"), Inline::Italic(vec![text("b")])])])]
    );
}

#[test]
fn siblings_keep_document_order() {
    let body = body_from_dom(&root(vec![
        el("p", vec![tx("one")]),
        el("hr", vec![]),
        el("h2", vec![tx("two")]),
        el("pre", vec![tx("three")]),
    ]));
    assert_eq!(
        body.blocks,
        vec![
            para(vec![text("one")]),
            Block::ThematicBreak,
            Block::Heading(Heading { inlines: vec![text("two")], level: HeadingLevel::H2 }),
            Block::CodeBlock(CodeBlock { lang: CodeLang::Unknown, inlines: vec![text("three")] }),
        ]
    );
}

#[test]
fn ordered_and_unordered_lists() {
    let body = body_from_dom(&root(vec![
        el("ol", vec![el("li", vec![tx("a")])]),
        el("ul", vec![el("li", vec![el("p", vec![tx("b")])])]),
    ]));
    assert_eq!(
        body.blocks,
        vec![
            Block::List(List {
                type_: ListType::Ordered,
                items: vec![ListItem { blocks: vec![para(vec![text("a")])] }],
            }),
            Block::List(List {
                type_: ListType::Unordered,
                items: vec![ListItem { blocks: vec![para(vec![text("b")])] }],
            }),
        ]
    );
}

#[test]
fn blockquote_regroups_children() {
    let body = body_from_dom(&root(vec![el(
        "blockquote",
        vec![tx("said"), el("code", vec![tx("x")]), el("p", vec![tx("more")])],
    )]));
    assert_eq!(
        body.blocks,
        vec![Block::Blockquote(Blockquote {
            blocks: vec![
                para(vec![text("said"), Inline::Code(vec![text("x")])]),
                para(vec![text("more")]),
            ],
        })]
    );
}

#[test]
fn root_level_bare_text_is_dropped() {
    let body = body_from_dom(&root(vec![tx("loose"), el("em", vec![tx("x")])]));
    assert_eq!(body.blocks, vec![]);
}

#[test]
fn div_and_unknown_tags_are_transparent() {
    let body = body_from_dom(&root(vec![el(
        "div",
        vec![el("section", vec![el("p", vec![el("span", vec![tx("in")])])])],
    )]));
    assert_eq!(body.blocks, vec![para(vec![text("in")])]);
}

#[test]
fn anchor_content_joins_the_run() {
    let items = list_of(vec![el("li", vec![el("a", vec![tx("link")]), tx("tail")])]);
    assert_eq!(
        items,
        vec![ListItem { blocks: vec![para(vec![text("link"), text("tail")])] }]
    );
}

#[test]
fn misplaced_elements_keep_their_content() {
    let body = body_from_dom(&root(vec![el(
        "p",
        vec![el("p", vec![tx("inner")]), el("li", vec![tx("item")]), el("hr", vec![tx("gone")])],
    )]));
    assert_eq!(body.blocks, vec![para(vec![text("inner"), text("item")])]);
}

#[test]
fn text_outside_list_items_is_dropped() {
    let items = list_of(vec![tx("stray"), el("li", vec![tx("kept")]), el("p", vec![tx("no")])]);
    assert_eq!(items, vec![ListItem { blocks: vec![para(vec![text("kept")])] }]);
}

#[test]
fn document_keeps_origin() {
    let url = url::Url::parse("https://example.com/post/1").unwrap();
    let doc = from_dom(url.clone(), &root(vec![el("p", vec![tx("x")])]));
    assert_eq!(doc.meta.origin_url, url);
    assert_eq!(doc.body.blocks, vec![para(vec![text("x")])]);
}
