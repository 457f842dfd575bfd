use vstd::prelude::*;

use crate::doc::{
    block_view, blocks_view, inline_view, inlines_view, items_view, Block, BlockV, Blockquote,
    Body, CodeBlock, Document, Heading, HeadingLevel, Inline, InlineV, List, ListItem, ListType,
    Paragraph,
};

verus! {

/// What one character of text becomes in HTML.
pub open spec fn escape_char(c: char) -> Seq<char> {
    if c == '"' {
        "&quot;"@
    } else if c == '&' {
        "&amp;"@
    } else if c == '\'' {
        "&#x27;"@
    } else if c == '/' {
        "&#x2f;"@
    } else if c == '<' {
        "&lt;"@
    } else if c == '>' {
        "&gt;"@
    } else {
        seq![c]
    }
}

/// Text escaped for HTML, character by character.
pub open spec fn escape_html(s: Seq<char>) -> Seq<char>
    decreases s.len(),
{
    if s.len() == 0 {
        Seq::empty()
    } else {
        escape_html(s.subrange(0, s.len() - 1)) + escape_char(s[s.len() - 1])
    }
}

pub open spec fn inline_html(i: InlineV) -> Seq<char>
    decreases i,
{
    match i {
        InlineV::Text(s) => escape_html(s),
        InlineV::Bold(xs) => "<strong>"@ + inlines_html(xs) + "</strong>"@,
        InlineV::Italic(xs) => "<em>"@ + inlines_html(xs) + "</em>"@,
        InlineV::Code(xs) => "<code>"@ + inlines_html(xs) + "</code>"@,
    }
}

pub open spec fn inlines_html(s: Seq<InlineV>) -> Seq<char>
    decreases s,
{
    if s.len() == 0 {
        Seq::empty()
    } else {
        inlines_html(s.subrange(0, s.len() - 1)) + inline_html(s[s.len() - 1])
    }
}

pub open spec fn heading_tag(l: HeadingLevel) -> Seq<char> {
    match l {
        HeadingLevel::H1 => "h1"@,
        HeadingLevel::H2 => "h2"@,
        HeadingLevel::H3 => "h3"@,
        HeadingLevel::H4 => "h4"@,
        HeadingLevel::H5 => "h5"@,
        HeadingLevel::H6 => "h6"@,
    }
}

pub open spec fn list_tag(k: ListType) -> Seq<char> {
    match k {
        ListType::Unordered => "ul"@,
        ListType::Ordered => "ol"@,
    }
}

/// The HTML of a block, between two line breaks.
pub open spec fn block_html(b: BlockV) -> Seq<char>
    decreases b,
{
    "\n"@ + match b {
        BlockV::Heading(l, xs) => "<"@ + heading_tag(l) + ">\n"@ + inlines_html(xs) + "</"@
            + heading_tag(l) + ">\n"@,
        BlockV::Paragraph(xs) => "<p>\n"@ + inlines_html(xs) + "\n</p>\n"@,
        BlockV::List(k, items) => "<"@ + list_tag(k) + ">\n"@ + items_html(items) + "\n</"@
            + list_tag(k) + ">\n"@,
        BlockV::Blockquote(bs) => "<blockquote>\n"@ + blocks_html(bs) + "</blockquote>\n"@,
        BlockV::ThematicBreak => "<hr/>\n"@,
        BlockV::CodeBlock(_, xs) => "<pre><code>"@ + inlines_html(xs) + "</code></pre>\n"@,
    } + "\n"@
}

pub open spec fn blocks_html(s: Seq<BlockV>) -> Seq<char>
    decreases s,
{
    if s.len() == 0 {
        Seq::empty()
    } else {
        blocks_html(s.subrange(0, s.len() - 1)) + block_html(s[s.len() - 1])
    }
}

pub open spec fn items_html(s: Seq<Seq<BlockV>>) -> Seq<char>
    decreases s,
{
    if s.len() == 0 {
        Seq::empty()
    } else {
        items_html(s.subrange(0, s.len() - 1)) + "<li>\n"@ + blocks_html(s[s.len() - 1])
            + "</li>\n"@
    }
}

/// Relies on `v_htmlescape::escape_string`: it appends the text to the buffer
/// with each of `"`, `&`, `'`, `/`, `<` and `>` replaced by its entity and
/// every other character unchanged.
#[verifier::external_body]
fn push_escaped(buf: &mut String, text: &str)
    ensures
        final(buf)@ == old(buf)@ + escape_html(text@),
{
    v_htmlescape::escape_string(text, buf)
}

fn render_inline(buf: &mut String, inline: &Inline)
    ensures
        final(buf)@ == old(buf)@ + inline_html(inline_view(*inline)),
    decreases inline, 1nat,
{
    match inline {
        Inline::Text(text) => {
            push_escaped(buf, text.as_str());
        },
        Inline::Bold(inlines) => {
            buf.append("<strong>");
            render_inlines(buf, inlines);
            buf.append("</strong>");
        },
        Inline::Italic(inlines) => {
            buf.append("<em>");
            render_inlines(buf, inlines);
            buf.append("</em>");
        },
        Inline::Code(inlines) => {
            buf.append("<code>");
            render_inlines(buf, inlines);
            buf.append("</code>");
        },
    }
    assert(buf@ =~= old(buf)@ + inline_html(inline_view(*inline)));
}

fn render_inlines(buf: &mut String, inlines: &Vec<Inline>)
    ensures
        final(buf)@ == old(buf)@ + inlines_html(inlines_view(inlines@)),
    decreases inlines, 0nat,
{
    let mut i: usize = 0;
    assert(inlines_view(inlines@.subrange(0, 0)) =~= Seq::<InlineV>::empty());
    assert(buf@ =~= old(buf)@ + inlines_html(inlines_view(inlines@.subrange(0, 0))));
    while i < inlines.len()
        invariant
            i <= inlines@.len(),
            buf@ == old(buf)@ + inlines_html(inlines_view(inlines@.subrange(0, i as int))),
        decreases inlines@.len() - i,
    {
        render_inline(buf, &inlines[i]);
        proof {
            let pre = inlines@.subrange(0, i as int);
            let next = inlines@.subrange(0, i + 1);
            assert(next.subrange(0, i as int) =~= pre);
            let vn = inlines_view(next);
            assert(vn.subrange(0, vn.len() - 1) =~= inlines_view(pre));
            assert(buf@ =~= old(buf)@ + inlines_html(vn));
        }
        i = i + 1;
    }
    assert(inlines@.subrange(0, inlines@.len() as int) =~= inlines@);
}

/// The line that links one stylesheet.
pub open spec fn link_html(path: Seq<char>) -> Seq<char> {
    "  <link rel='stylesheet' href='"@ + path + "'>\n"@
}

pub open spec fn links_html(s: Seq<String>) -> Seq<char>
    decreases s.len(),
{
    if s.len() == 0 {
        Seq::empty()
    } else {
        links_html(s.subrange(0, s.len() - 1)) + link_html(s[s.len() - 1]@)
    }
}

/// The head section of a page: character set, title when there is one, and
/// one link for each stylesheet in order.
pub open spec fn head_html(stylesheets: Seq<String>, title: Option<Seq<char>>) -> Seq<char> {
    "\n<head>\n  <meta charset='utf-8'>\n"@ + match title {
        Some(t) => "  <title>"@ + t + "</title>\n"@,
        None => Seq::empty(),
    } + links_html(stylesheets) + "</head>\n\n"@
}

pub open spec fn body_html(blocks: Seq<BlockV>) -> Seq<char> {
    "\n<body>\n<main>\n<article>\n"@ + blocks_html(blocks) + "</article>\n</main>\n</body>\n\n"@
}

/// A whole page: doctype, head without a title, and the body.
pub open spec fn page_html(stylesheets: Seq<String>, blocks: Seq<BlockV>) -> Seq<char> {
    "<!doctype html>\n<html lang='en'>\n"@ + head_html(stylesheets, None) + body_html(blocks)
        + "</html>\n"@
}

/// What the head section shows besides the stylesheets.
pub struct HeaderMeta {
    pub title: Option<String>,
}

/// Renders a whole document as a page that links the given stylesheets.
pub fn to_string(stylesheets: &Vec<String>, doc: &Document) -> (r: String)
    ensures
        r@ == page_html(stylesheets@, blocks_view(doc.body.blocks@)),
{
    let mut buf = String::new();
    render_doc(&mut buf, stylesheets, doc);
    assert(buf@ =~= page_html(stylesheets@, blocks_view(doc.body.blocks@)));
    buf
}

fn render_doc(buf: &mut String, stylesheets: &Vec<String>, doc: &Document)
    ensures
        final(buf)@ == old(buf)@ + page_html(stylesheets@, blocks_view(doc.body.blocks@)),
{
    buf.append("<!doctype html>\n<html lang='en'>\n");
    let header_meta = HeaderMeta { title: None };
    render_head(buf, stylesheets, &header_meta);
    render_body(buf, &doc.body);
    buf.append("</html>\n");
    assert(buf@ =~= old(buf)@ + page_html(stylesheets@, blocks_view(doc.body.blocks@)));
}

/// Appends the head section of a page.
pub fn render_head(buf: &mut String, stylesheets: &Vec<String>, meta: &HeaderMeta)
    ensures
        final(buf)@ == old(buf)@ + head_html(
            stylesheets@,
            match meta.title {
                Some(t) => Some(t@),
                None => None,
            },
        ),
{
    buf.append("\n<head>\n  <meta charset='utf-8'>\n");
    let ghost after_meta = buf@;
    match &meta.title {
        Some(title) => {
            buf.append("  <title>");
            buf.append(title.as_str());
            buf.append("</title>\n");
        },
        None => {},
    }
    let ghost after_title = buf@;
    let mut i: usize = 0;
    assert(links_html(stylesheets@.subrange(0, 0)) =~= Seq::<char>::empty());
    assert(buf@ =~= after_title + links_html(stylesheets@.subrange(0, 0)));
    while i < stylesheets.len()
        invariant
            i <= stylesheets@.len(),
            buf@ == after_title + links_html(stylesheets@.subrange(0, i as int)),
        decreases stylesheets@.len() - i,
    {
        buf.append("  <link rel='stylesheet' href='");
        buf.append(stylesheets[i].as_str());
        buf.append("'>\n");
        proof {
            let next = stylesheets@.subrange(0, i + 1);
            assert(next.subrange(0, i as int) =~= stylesheets@.subrange(0, i as int));
            assert(buf@ =~= after_title + links_html(next));
        }
        i = i + 1;
    }
    assert(stylesheets@.subrange(0, stylesheets@.len() as int) =~= stylesheets@);
    buf.append("</head>\n\n");
    assert(buf@ =~= old(buf)@ + head_html(
        stylesheets@,
        match meta.title {
            Some(t) => Some(t@),
            None => None,
        },
    ));
}

fn render_body(buf: &mut String, body: &Body)
    ensures
        final(buf)@ == old(buf)@ + body_html(blocks_view(body.blocks@)),
{
    buf.append("\n<body>\n<main>\n<article>\n");
    render_blocks(buf, &body.blocks);
    buf.append("</article>\n</main>\n</body>\n\n");
    assert(buf@ =~= old(buf)@ + body_html(blocks_view(body.blocks@)));
}

fn render_blocks(buf: &mut String, blocks: &Vec<Block>)
    ensures
        final(buf)@ == old(buf)@ + blocks_html(blocks_view(blocks@)),
    decreases blocks, 0nat,
{
    let mut i: usize = 0;
    assert(blocks_view(blocks@.subrange(0, 0)) =~= Seq::<BlockV>::empty());
    assert(buf@ =~= old(buf)@ + blocks_html(blocks_view(blocks@.subrange(0, 0))));
    while i < blocks.len()
        invariant
            i <= blocks@.len(),
            buf@ == old(buf)@ + blocks_html(blocks_view(blocks@.subrange(0, i as int))),
        decreases blocks@.len() - i,
    {
        render_block(buf, &blocks[i]);
        proof {
            let pre = blocks@.subrange(0, i as int);
            let next = blocks@.subrange(0, i + 1);
            assert(next.subrange(0, i as int) =~= pre);
            let vn = blocks_view(next);
            assert(vn.subrange(0, vn.len() - 1) =~= blocks_view(pre));
            assert(buf@ =~= old(buf)@ + blocks_html(vn));
        }
        i = i + 1;
    }
    assert(blocks@.subrange(0, blocks@.len() as int) =~= blocks@);
}

fn render_block(buf: &mut String, block: &Block)
    ensures
        final(buf)@ == old(buf)@ + block_html(block_view(*block)),
    decreases block, 2nat,
{
    buf.append("\n");
    match block {
        Block::Heading(heading) => render_heading(buf, heading),
        Block::Paragraph(para) => render_paragraph(buf, para),
        Block::List(list) => render_list(buf, list),
        Block::Blockquote(blockquote) => render_blockquote(buf, blockquote),
        Block::ThematicBreak => render_thematic_break(buf),
        Block::CodeBlock(code_block) => render_code_block(buf, code_block),
    }
    buf.append("\n");
    assert(buf@ =~= old(buf)@ + block_html(block_view(*block)));
}

fn heading_name(level: HeadingLevel) -> (r: &'static str)
    ensures
        r@ == heading_tag(level),
{
    match level {
        HeadingLevel::H1 => "h1",
        HeadingLevel::H2 => "h2",
        HeadingLevel::H3 => "h3",
        HeadingLevel::H4 => "h4",
        HeadingLevel::H5 => "h5",
        HeadingLevel::H6 => "h6",
    }
}

fn render_heading(buf: &mut String, heading: &Heading)
    ensures
        final(buf)@ == old(buf)@ + "<"@ + heading_tag(heading.level) + ">\n"@ + inlines_html(
            inlines_view(heading.inlines@),
        ) + "</"@ + heading_tag(heading.level) + ">\n"@,
{
    let lvl = heading_name(heading.level);
    buf.append("<");
    buf.append(lvl);
    buf.append(">\n");
    render_inlines(buf, &heading.inlines);
    buf.append("</");
    buf.append(lvl);
    buf.append(">\n");
}

fn render_paragraph(buf: &mut String, para: &Paragraph)
    ensures
        final(buf)@ == old(buf)@ + "<p>\n"@ + inlines_html(inlines_view(para.inlines@))
            + "\n</p>\n"@,
{
    buf.append("<p>\n");
    render_inlines(buf, &para.inlines);
    buf.append("\n</p>\n");
}

fn list_name(type_: ListType) -> (r: &'static str)
    ensures
        r@ == list_tag(type_),
{
    match type_ {
        ListType::Unordered => "ul",
        ListType::Ordered => "ol",
    }
}

fn render_list(buf: &mut String, list: &List)
    ensures
        final(buf)@ == old(buf)@ + "<"@ + list_tag(list.type_) + ">\n"@ + items_html(
            items_view(list.items@),
        ) + "\n</"@ + list_tag(list.type_) + ">\n"@,
    decreases list, 1nat,
{
    let tag = list_name(list.type_);
    buf.append("<");
    buf.append(tag);
    buf.append(">\n");
    let ghost start = buf@;
    let mut i: usize = 0;
    assert(items_view(list.items@.subrange(0, 0)) =~= Seq::<Seq<BlockV>>::empty());
    assert(buf@ =~= start + items_html(items_view(list.items@.subrange(0, 0))));
    while i < list.items.len()
        invariant
            i <= list.items@.len(),
            buf@ == start + items_html(items_view(list.items@.subrange(0, i as int))),
        decreases list.items@.len() - i,
    {
        render_list_item(buf, &list.items[i]);
        proof {
            let pre = list.items@.subrange(0, i as int);
            let next = list.items@.subrange(0, i + 1);
            assert(next.subrange(0, i as int) =~= pre);
            let vn = items_view(next);
            assert(vn.subrange(0, vn.len() - 1) =~= items_view(pre));
            assert(buf@ =~= start + items_html(vn));
        }
        i = i + 1;
    }
    assert(list.items@.subrange(0, list.items@.len() as int) =~= list.items@);
    buf.append("\n</");
    buf.append(tag);
    buf.append(">\n");
}

fn render_list_item(buf: &mut String, item: &ListItem)
    ensures
        final(buf)@ == old(buf)@ + "<li>\n"@ + blocks_html(blocks_view(item.blocks@))
            + "</li>\n"@,
    decreases item, 1nat,
{
    buf.append("<li>\n");
    render_blocks(buf, &item.blocks);
    buf.append("</li>\n");
}

fn render_blockquote(buf: &mut String, bq: &Blockquote)
    ensures
        final(buf)@ == old(buf)@ + "<blockquote>\n"@ + blocks_html(blocks_view(bq.blocks@))
            + "</blockquote>\n"@,
    decreases bq, 1nat,
{
    buf.append("<blockquote>\n");
    render_blocks(buf, &bq.blocks);
    buf.append("</blockquote>\n");
}

fn render_thematic_break(buf: &mut String)
    ensures
        final(buf)@ == old(buf)@ + "<hr/>\n"@,
{
    buf.append("<hr/>\n");
}

fn render_code_block(buf: &mut String, code_block: &CodeBlock)
    ensures
        final(buf)@ == old(buf)@ + "<pre><code>"@ + inlines_html(inlines_view(code_block.inlines@))
            + "</code></pre>\n"@,
{
    buf.append("<pre><code>");
    render_inlines(buf, &code_block.inlines);
    buf.append("</code></pre>\n");
}

/// Escaped text holds no angle bracket and no quote: text can never bring
/// markup into a page. A `<` becomes `&lt;` and a `&` becomes `&amp;`.
pub proof fn lemma_escaped_text_has_no_markup(s: Seq<char>)
    ensures
        forall|i: int|
            0 <= i < escape_html(s).len() ==> {
                let c = #[trigger] escape_html(s)[i];
                c != '<' && c != '>' && c != '"' && c != '\''
            },
        escape_char('<') == "&lt;"@,
        escape_char('&') == "&amp;"@,
        inline_html(InlineV::Text(s)) == escape_html(s),
    decreases s.len(),
{
    if s.len() > 0 {
        let pre = s.subrange(0, s.len() - 1);
        lemma_escaped_text_has_no_markup(pre);
        let c = s[s.len() - 1];
        reveal_strlit("&quot;");
        reveal_strlit("&amp;");
        reveal_strlit("&#x27;");
        reveal_strlit("&#x2f;");
        reveal_strlit("&lt;");
        reveal_strlit("&gt;");
        let e = escape_char(c);
        assert forall|j: int| 0 <= j < e.len() implies #[trigger] e[j] != '<' && e[j] != '>'
            && e[j] != '"' && e[j] != '\'' by {}
        let whole = escape_html(s);
        let a = escape_html(pre);
        assert forall|i: int| 0 <= i < whole.len() implies {
            let x = #[trigger] whole[i];
            x != '<' && x != '>' && x != '"' && x != '\''
        } by {
            if i < a.len() {
                assert(whole[i] == a[i]);
            } else {
                assert(whole[i] == e[i - a.len()]);
            }
        }
    }
}

} // verus!
