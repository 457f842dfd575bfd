use docmodel::convert::{body_from_dom, from_dom};
use docmodel::doc::{Block, Body, Document, Inline, Meta, Paragraph};
use docmodel::dom::{Node, NodeKind};
use docmodel::render::{render_head, to_string, HeaderMeta};

fn el(name: &str, children: Vec<Node>) -> Node {
    Node::element(name, children)
}

fn tx(s: &str) -> Node {
    Node::text(s)
}

fn root(children: Vec<Node>) -> Node {
    Node { kind: NodeKind::Other, children }
}

fn doc_of(blocks: Vec<Block>) -> Document {
    Document {
        meta: Meta { origin_url: url::Url::parse("https://example.com/").unwrap() },
        body: Body { blocks },
    }
}

fn squeeze(s: &str) -> String {
    s.chars().filter(|c| !c.is_whitespace()).collect()
}

#[test]
fn empty_page_is_exact() {
    let sheets = vec!["css/reset.css".to_string(), "css/main.css".to_string()];
    let out = to_string(&sheets, &doc_of(vec![]));
    assert_eq!(
        out,
        "<!doctype html>\n<html lang='en'>\n\n<head>\n  <meta charset='utf-8'>\n  \
         <link rel='stylesheet' href='css/reset.css'>\n  \
         <link rel='stylesheet' href='css/main.css'>\n</head>\n\n\n<body>\n<main>\n<article>\n\
         </article>\n</main>\n</body>\n\n</html>\n"
    );
}

#[test]
fn nested_emphasis_round_trips() {
    let dom = root(vec![el("p", vec![el("strong", vec![tx("a"), el("em", vec![tx("b")])])])]);
    let doc = from_dom(url::Url::parse("https://example.com/").unwrap(), &dom);
    let out = to_string(&vec![], &doc);
    assert!(out.contains("\n<p>\n<strong>a<em>b</em></strong>\n</p>\n"));
    assert!(squeeze(&out).contains("<p><strong>a<em>b</em></strong></p>"));
}

#[test]
fn text_is_escaped() {
    let doc = doc_of(vec![Block::Paragraph(Paragraph {
        inlines: vec![Inline::Text("a < b && \"c\" 'd' e/f > g".to_string())],
    })]);
    let out = to_string(&vec![], &doc);
    assert!(out.contains("a &lt; b &amp;&amp; &quot;c&quot; &#x27;d&#x27; e&#x2f;f &gt; g"));
    assert!(!out.contains("a < b"));
}

#[test]
fn rendering_twice_is_identical() {
    let dom = root(vec![
        el("h1", vec![tx("T")]),
        el("ul", vec![el("li", vec![tx("x"), el("p", vec![tx("y")])])]),
        el("blockquote", vec![el("pre", vec![el("code", vec![tx("fn f() {}")])])]),
    ]);
    let doc = Document {
        meta: Meta { origin_url: url::Url::parse("https://example.com/").unwrap() },
        body: body_from_dom(&dom),
    };
    let sheets = vec!["s.css".to_string()];
    assert_eq!(to_string(&sheets, &doc), to_string(&sheets, &doc));
}

#[test]
fn every_block_kind_renders() {
    let dom = root(vec![
        el("h2", vec![tx("T")]),
        el("ol", vec![el("li", vec![tx("x")])]),
        el("blockquote", vec![el("p", vec![tx("q")])]),
        el("hr", vec![]),
        el("pre", vec![el("code", vec![tx("c")])]),
    ]);
    let doc = doc_of(body_from_dom(&dom).blocks);
    let out = to_string(&vec![], &doc);
    let expected = "<article>\n\
        \n<h2>\nT</h2>\n\n\
        \n<ol>\n<li>\n\n<p>\nx\n</p>\n\n</li>\n\n</ol>\n\n\
        \n<blockquote>\n\n<p>\nq\n</p>\n\n</blockquote>\n\n\
        \n<hr/>\n\n\
        \n<pre><code><code>c</code></code></pre>\n\n\
        </article>";
    assert!(out.contains(expected), "{}", out);
}

#[test]
fn head_with_title() {
    let mut buf = String::new();
    let meta = HeaderMeta { title: Some("Post".to_string()) };
    render_head(&mut buf, &vec!["a.css".to_string()], &meta);
    assert_eq!(
        buf,
        "\n<head>\n  <meta charset='utf-8'>\n  <title>Post</title>\n  \
         <link rel='stylesheet' href='a.css'>\n</head>\n\n"
    );
}
