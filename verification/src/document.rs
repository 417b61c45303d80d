//! The whole pipeline: from Markdown source to the text of an HTML page.

use crate::parser::lexer::{tokenize, Lexer};
use crate::parser::parser::{
    document_rule, plain, stands_for, ExpressionView, Node, ParseError, Parser, AST, MAX_LEVEL,
};
use crate::strings::decimal;
use crate::types::elements::{
    joined, lemma_plain_run, lemma_single_run, runs_markup, Element, Head, Renderable, HTML,
};
use vstd::prelude::*;
use vstd::string::*;

verus! {

/// The markup of one expression of a document: a text node is a paragraph,
/// a heading node is a heading of its level, the placeholder is an empty
/// paragraph.
pub open spec fn expression_markup(node: ExpressionView) -> Seq<char> {
    match node {
        ExpressionView::Text(text) => "<p>"@ + text.text + "</p>"@,
        ExpressionView::Heading(heading) => "<h"@ + decimal(heading.level) + ">"@
            + heading.text.text + "</h"@ + decimal(heading.level) + ">"@,
        ExpressionView::Noop => "<p>"@ + "</p>"@,
    }
}

/// The markup of the expressions of a document, one to a line.
pub open spec fn lines(document: Seq<ExpressionView>) -> Seq<char>
    decreases document.len(),
{
    if document.len() == 0 {
        Seq::empty()
    } else {
        lines(document.drop_last()) + expression_markup(document.last()) + "\n"@
    }
}

/// The line that holds the head of a page, where it has one.
pub open spec fn head_line(head: Option<Seq<char>>) -> Seq<char> {
    match head {
        Some(fragment) => "<head>"@ + fragment + "</head>"@ + "\n"@,
        None => Seq::empty(),
    }
}

/// The text of a page: between `<html>` and `</html>`, the head where there
/// is one and then each expression, one to a line.
pub open spec fn page_markup(head: Option<Seq<char>>, document: Seq<ExpressionView>) -> Seq<
    char,
> {
    "<html>\n"@ + (head_line(head) + lines(document)) + "</html>"@
}

/// The characters of an optional string.
pub open spec fn fragment_view(head: Option<&str>) -> Option<Seq<char>> {
    match head {
        Some(fragment) => Some(fragment@),
        None => None,
    }
}

/// The element that stands for a node renders as the node's markup.
pub proof fn lemma_bridge_markup(element: Element, node: ExpressionView)
    requires
        stands_for(element, node),
        node matches ExpressionView::Heading(heading) ==> heading.level <= MAX_LEVEL,
    ensures
        element.markup() == expression_markup(node),
{
    match node {
        ExpressionView::Text(text) => {
            lemma_plain_run(text.text);
            lemma_single_run(plain(text.text));
        },
        ExpressionView::Heading(heading) => {
            lemma_plain_run(heading.text.text);
            lemma_single_run(plain(heading.text.text));
        },
        ExpressionView::Noop => {
            assert(runs_markup(Seq::empty()) =~= Seq::<char>::empty());
            assert("<p>"@ + Seq::<char>::empty() + "</p>"@ =~= "<p>"@ + "</p>"@);
        },
    }
}

/// The element that stands for the placeholder renders as an empty
/// paragraph.
pub proof fn lemma_placeholder_markup(element: Element)
    requires
        stands_for(element, ExpressionView::Noop),
    ensures
        element.markup() == "<p></p>"@,
{
    lemma_bridge_markup(element, ExpressionView::Noop);
    reveal_strlit("<p>");
    reveal_strlit("</p>");
    reveal_strlit("<p></p>");
    assert("<p>"@ + "</p>"@ =~= "<p></p>"@);
}

/// `joined` reads only the first `n` of its items.
proof fn lemma_joined_prefix(a: Seq<Element>, b: Seq<Element>, n: int, after: Seq<char>)
    requires
        0 <= n <= a.len(),
        n <= b.len(),
        forall|i: int| 0 <= i < n ==> a[i] == b[i],
    ensures
        joined(a, n, after) == joined(b, n, after),
    decreases n,
{
    if n > 0 {
        lemma_joined_prefix(a, b, n - 1, after);
    }
}

/// The page for a document tree: the head, where a fragment is given, and
/// then the element of each expression.
pub fn build_page(tree: &Node, head: Option<&str>) -> (page: HTML)
    ensures
        page.markup() == page_markup(fragment_view(head), tree@),
{
    let mut doc = HTML::new();
    match head {
        Some(fragment) => {
            let element = Element::Head(Head::with_fragment(fragment.to_owned()));
            doc.items.push(element);
            assert(doc.items@[0].markup() == "<head>"@ + fragment@ + "</head>"@);
            assert(joined(doc.items@, 0, "\n"@) =~= Seq::empty());
            assert(joined(doc.items@, 1, "\n"@) =~= head_line(fragment_view(head)));
        },
        None => {},
    }
    let mut i: usize = 0;
    while i < tree.children.len()
        invariant
            i <= tree.children.len(),
            joined(doc.items@, doc.items@.len() as int, "\n"@) == head_line(fragment_view(head))
                + lines(tree@.take(i as int)),
        decreases tree.children.len() - i,
    {
        let ghost before = doc.items@;
        let element = tree.children[i].item.convert_to_renderable();
        proof {
            lemma_bridge_markup(element, tree@[i as int]);
        }
        doc.items.push(element);
        proof {
            lemma_joined_prefix(doc.items@, before, before.len() as int, "\n"@);
            assert(tree@.take(i + 1).drop_last() =~= tree@.take(i as int));
            assert(joined(doc.items@, doc.items@.len() as int, "\n"@) =~= head_line(
                fragment_view(head),
            ) + lines(tree@.take(i + 1)));
        }
        i += 1;
    }
    assert(tree@.take(i as int) =~= tree@);
    doc
}

/// The `<link>` tag that names the stylesheet at `href`.
pub fn stylesheet_link(href: &str) -> (tag: String)
    ensures
        tag@ == "<link rel=\"stylesheet\" href=\""@ + href@ + "\">"@,
{
    let mut tag = String::new();
    tag.append("<link rel=\"stylesheet\" href=\"");
    tag.append(href);
    tag.append("\">");
    tag
}

/// Converts Markdown source to the text of an HTML page, with `head` as the
/// content of its head where one is given. Fails where the tokens of the
/// source are not a document.
pub fn convert(source: &str, head: Option<&str>) -> (result: Result<String, ParseError>)
    ensures
        match document_rule(tokenize(source@), 0) {
            Ok(document) => result matches Ok(html) && html@ == page_markup(
                fragment_view(head),
                document,
            ),
            Err(e) => result matches Err(error) && error@ == e,
        },
{
    let mut lexer = Lexer::new(source);
    lexer.scan();
    assert(Seq::<crate::parser::lexer::TokenView>::empty() + tokenize(source@) =~= tokenize(
        source@,
    ));
    let mut parser = Parser::new(lexer);
    match parser.parse() {
        Ok(()) => {
            let page = build_page(&parser.tree, head);
            Ok(page.render())
        },
        Err(error) => Err(error),
    }
}

} // verus!
