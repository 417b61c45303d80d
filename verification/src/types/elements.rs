//! Renderable elements: the nodes of an HTML document, each of which can
//! write itself as markup.

use crate::parser::parser::{BOLD_STYLE, CODE_STYLE, ITALIC_STYLE};
use crate::strings::{decimal, push_decimal};
use vstd::prelude::*;
use vstd::string::*;

verus! {

/// What every element can do: give its HTML.
pub trait Renderable {
    /// The HTML of this element.
    spec fn markup(&self) -> Seq<char>;

    fn render(&self) -> (out: String)
        ensures
            out@ == self.markup(),
    ;
}

/// `open`, then `body`, then `close`.
fn wrap(open: &str, body: &str, close: &str) -> (out: String)
    ensures
        out@ == open@ + body@ + close@,
{
    let mut out = String::new();
    out.append(open);
    out.append(body);
    out.append(close);
    out
}

// Styled text

/// A run of literal text with its style bits (`ITALIC_STYLE`, `BOLD_STYLE`,
/// `CODE_STYLE`).
pub struct Text {
    pub text: String,
    pub style: u8,
}

/// The mathematical content of a [`Text`].
pub struct StyledText {
    pub literal: Seq<char>,
    pub style: u8,
}

impl View for Text {
    type V = StyledText;

    open spec fn view(&self) -> StyledText {
        StyledText { literal: self.text@, style: self.style }
    }
}

/// The markup of a run. One wrap at most survives: the code wrap where the
/// code bit is set, else the bold wrap where the bold bit is set, else the
/// italic wrap where the italic bit is set; each is laid round the bare
/// literal.
pub open spec fn styled(literal: Seq<char>, style: u8) -> Seq<char> {
    if style & CODE_STYLE != 0 {
        "<code>"@ + literal + "</code>"@
    } else if style & BOLD_STYLE != 0 {
        "<b>"@ + literal + "</b>"@
    } else if style & ITALIC_STYLE != 0 {
        "<i>"@ + literal + "</i>"@
    } else {
        literal
    }
}

impl Text {
    /// The literal text with its styling applied.
    pub fn get_text(&self) -> (out: String)
        ensures
            out@ == styled(self.text@, self.style),
    {
        let mut s = self.text.clone();
        if self.style & ITALIC_STYLE != 0 {
            s = wrap("<i>", self.text.as_str(), "</i>");
        }
        if self.style & BOLD_STYLE != 0 {
            s = wrap("<b>", self.text.as_str(), "</b>");
        }
        if self.style & CODE_STYLE != 0 {
            s = wrap("<code>", self.text.as_str(), "</code>");
        }
        s
    }
}

/// Which wrap a run gets: with the code bit set it is written as code,
/// whatever its other bits; with the bold bit alone as bold; with the italic
/// bit alone as italic.
pub proof fn lemma_style_precedence(literal: Seq<char>, style: u8)
    ensures
        style & CODE_STYLE != 0 ==> styled(literal, style) == "<code>"@ + literal + "</code>"@,
        style == BOLD_STYLE ==> styled(literal, style) == "<b>"@ + literal + "</b>"@,
        style == ITALIC_STYLE ==> styled(literal, style) == "<i>"@ + literal + "</i>"@,
{
    assert(2u8 & 4u8 == 0 && 2u8 & 2u8 != 0) by (bit_vector);
    assert(1u8 & 4u8 == 0 && 1u8 & 2u8 == 0 && 1u8 & 1u8 != 0) by (bit_vector);
}

impl Renderable for Text {
    open spec fn markup(&self) -> Seq<char> {
        styled(self.text@, self.style)
    }

    fn render(&self) -> (out: String) {
        self.get_text()
    }
}

/// The views of a sequence of runs, in order.
pub open spec fn run_views(texts: Seq<Text>) -> Seq<StyledText> {
    texts.map_values(|t: Text| t@)
}

/// The markup of a sequence of runs: that of each, in order.
pub open spec fn runs_markup(runs: Seq<StyledText>) -> Seq<char>
    decreases runs.len(),
{
    if runs.len() == 0 {
        Seq::empty()
    } else {
        runs_markup(runs.drop_last()) + styled(runs.last().literal, runs.last().style)
    }
}

/// A run without style bits is written as its bare literal.
pub proof fn lemma_plain_run(literal: Seq<char>)
    ensures
        styled(literal, 0) == literal,
{
    assert(0u8 & 4u8 == 0 && 0u8 & 2u8 == 0 && 0u8 & 1u8 == 0) by (bit_vector);
}

/// The markup of a single run.
pub proof fn lemma_single_run(run: StyledText)
    ensures
        runs_markup(seq![run]) == styled(run.literal, run.style),
{
    let runs = seq![run];
    assert(runs.drop_last() =~= Seq::empty());
    assert(runs_markup(runs.drop_last()) =~= Seq::<char>::empty());
    assert(runs_markup(runs) =~= styled(run.literal, run.style));
}

/// Appends the markup of each run in `texts` to `out`.
fn append_runs(out: &mut String, texts: &Vec<Text>)
    ensures
        final(out)@ == old(out)@ + runs_markup(run_views(texts@)),
{
    let ghost before = out@;
    let ghost runs = run_views(texts@);
    let mut i: usize = 0;
    while i < texts.len()
        invariant
            i <= texts.len(),
            runs == run_views(texts@),
            out@ == before + runs_markup(runs.take(i as int)),
        decreases texts.len() - i,
    {
        let s = texts[i].get_text();
        out.append(s.as_str());
        proof {
            assert(runs.take(i + 1).drop_last() == runs.take(i as int));
        }
        i += 1;
    }
    proof {
        assert(runs.take(texts.len() as int) == runs);
    }
}

// Code block

/// Preformatted code: a sequence of runs.
pub struct CodeBlock {
    pub texts: Vec<Text>,
}

impl View for CodeBlock {
    type V = Seq<StyledText>;

    open spec fn view(&self) -> Seq<StyledText> {
        run_views(self.texts@)
    }
}

impl CodeBlock {
    pub fn new() -> (block: Self)
        ensures
            block@ == Seq::<StyledText>::empty(),
    {
        CodeBlock { texts: Vec::new() }
    }
}

impl Renderable for CodeBlock {
    open spec fn markup(&self) -> Seq<char> {
        "<pre><code>"@ + runs_markup(self@) + "</code></pre>"@
    }

    fn render(&self) -> (out: String) {
        let mut master = String::new();
        master.append("<pre><code>");
        append_runs(&mut master, &self.texts);
        master.append("</code></pre>");
        master
    }
}

// Paragraph

/// A paragraph: a sequence of runs.
pub struct Paragraph {
    pub texts: Vec<Text>,
}

impl View for Paragraph {
    type V = Seq<StyledText>;

    open spec fn view(&self) -> Seq<StyledText> {
        run_views(self.texts@)
    }
}

impl Paragraph {
    /// The empty paragraph.
    pub fn new() -> (paragraph: Self)
        ensures
            paragraph@ == Seq::<StyledText>::empty(),
    {
        Paragraph { texts: Vec::new() }
    }

    /// The paragraph of one unstyled run that holds `text`.
    pub fn plain(text: String) -> (paragraph: Self)
        ensures
            paragraph@ == seq![StyledText { literal: text@, style: 0 }],
    {
        let mut texts: Vec<Text> = Vec::new();
        texts.push(Text { text, style: 0 });
        Paragraph { texts }
    }
}

impl Renderable for Paragraph {
    open spec fn markup(&self) -> Seq<char> {
        "<p>"@ + runs_markup(self@) + "</p>"@
    }

    fn render(&self) -> (out: String) {
        let mut master = String::new();
        master.append("<p>");
        append_runs(&mut master, &self.texts);
        master.append("</p>");
        master
    }
}

// Head

/// The document head: an HTML fragment that is written out as it is.
pub struct Head {
    text: String,
}

impl View for Head {
    type V = Seq<char>;

    closed spec fn view(&self) -> Seq<char> {
        self.text@
    }
}

impl Head {
    /// The head that holds nothing.
    pub fn new() -> (head: Self)
        ensures
            head@ == Seq::<char>::empty(),
    {
        Head { text: String::new() }
    }

    /// The head that holds `fragment`.
    pub fn with_fragment(fragment: String) -> (head: Self)
        ensures
            head@ == fragment@,
    {
        Head { text: fragment }
    }
}

impl Renderable for Head {
    open spec fn markup(&self) -> Seq<char> {
        "<head>"@ + self@ + "</head>"@
    }

    fn render(&self) -> (out: String) {
        wrap("<head>", self.text.as_str(), "</head>")
    }
}

// Heading

/// A heading: its caption and its level.
pub struct Heading {
    text: Paragraph,
    level: u8,
}

/// The mathematical content of a [`Heading`].
pub struct HeadingView {
    pub caption: Seq<StyledText>,
    pub level: u8,
}

impl View for Heading {
    type V = HeadingView;

    closed spec fn view(&self) -> HeadingView {
        HeadingView { caption: self.text@, level: self.level }
    }
}

impl Heading {
    pub fn new(text: Paragraph, level: u8) -> (heading: Self)
        ensures
            heading@ == (HeadingView { caption: text@, level }),
    {
        Heading { text: text, level: level }
    }
}

/// The markup of a heading: the runs of its caption between `<hN>` and
/// `</hN>`, N being the level in base ten.
pub open spec fn heading_markup(caption: Seq<StyledText>, level: u8) -> Seq<char> {
    "<h"@ + decimal(level as nat) + ">"@ + runs_markup(caption) + "</h"@ + decimal(level as nat)
        + ">"@
}

impl Renderable for Heading {
    open spec fn markup(&self) -> Seq<char> {
        heading_markup(self@.caption, self@.level)
    }

    fn render(&self) -> (out: String) {
        let mut master = String::new();
        master.append("<h");
        push_decimal(&mut master, self.level as usize);
        master.append(">");
        append_runs(&mut master, &self.text.texts);
        master.append("</h");
        push_decimal(&mut master, self.level as usize);
        master.append(">");
        master
    }
}

// Containers

/// Any renderable element.
pub enum Element {
    Html(HTML),
    Head(Head),
    Body(Body),
    Heading(Heading),
    Paragraph(Paragraph),
    CodeBlock(CodeBlock),
    Text(Text),
}

/// The document body: a sequence of elements.
pub struct Body {
    items: Vec<Element>,
}

/// The whole document: a sequence of elements, one to a line.
pub struct HTML {
    pub items: Vec<Element>,
}

/// The markup of the first `n` of `items`, each followed by `after`.
pub open spec fn joined(items: Seq<Element>, n: int, after: Seq<char>) -> Seq<char>
    decreases items, n,
{
    if 0 < n <= items.len() {
        joined(items, n - 1, after) + items[n - 1].markup() + after
    } else {
        Seq::empty()
    }
}

impl Body {
    /// The elements of the body, in order.
    pub closed spec fn children(&self) -> Seq<Element> {
        self.items@
    }

    /// The body that holds nothing.
    pub fn new() -> (body: Self)
        ensures
            body.children() == Seq::<Element>::empty(),
    {
        let _vec = Vec::<Element>::new();
        Body { items: _vec }
    }

    /// Adds `child` as the last element of the body.
    pub fn push(&mut self, child: Element)
        ensures
            final(self).children() == old(self).children().push(child),
    {
        self.items.push(child);
    }
}

impl Renderable for Body {
    open spec fn markup(&self) -> Seq<char>
        decreases self,
    {
        "<body>"@ + joined(self.children(), self.children().len() as int, Seq::empty())
            + "</body>"@
    }

    fn render(&self) -> (out: String)
        decreases self,
    {
        let mut master = String::new();
        master.append("<body>");
        let mut i: usize = 0;
        while i < self.items.len()
            invariant
                i <= self.items.len(),
                master@ == "<body>"@ + joined(self.items@, i as int, Seq::empty()),
            decreases self.items.len() - i,
        {
            let text = self.items[i].render();
            master.append(text.as_str());
            i += 1;
        }
        master.append("</body>");
        master
    }
}

impl HTML {
    /// The document that holds nothing.
    pub fn new() -> (html: Self)
        ensures
            html.items@ == Seq::<Element>::empty(),
    {
        let _vec = Vec::<Element>::new();
        HTML { items: _vec }
    }
}

impl Renderable for HTML {
    open spec fn markup(&self) -> Seq<char>
        decreases self,
    {
        "<html>\n"@ + joined(self.items@, self.items@.len() as int, "\n"@) + "</html>"@
    }

    fn render(&self) -> (out: String)
        decreases self,
    {
        let mut master = String::new();
        master.append("<html>\n");
        let mut i: usize = 0;
        while i < self.items.len()
            invariant
                i <= self.items.len(),
                master@ == "<html>\n"@ + joined(self.items@, i as int, "\n"@),
            decreases self.items.len() - i,
        {
            let text = self.items[i].render();
            master.append(text.as_str());
            master.append("\n");
            i += 1;
        }
        master.append("</html>");
        master
    }
}

impl Renderable for Element {
    open spec fn markup(&self) -> Seq<char>
        decreases self,
    {
        match self {
            Element::Html(html) => html.markup(),
            Element::Head(head) => head.markup(),
            Element::Body(body) => body.markup(),
            Element::Heading(heading) => heading.markup(),
            Element::Paragraph(paragraph) => paragraph.markup(),
            Element::CodeBlock(block) => block.markup(),
            Element::Text(text) => text.markup(),
        }
    }

    fn render(&self) -> (out: String)
        decreases self,
    {
        match self {
            Element::Html(html) => html.render(),
            Element::Head(head) => head.render(),
            Element::Body(body) => body.render(),
            Element::Heading(heading) => heading.render(),
            Element::Paragraph(paragraph) => paragraph.render(),
            Element::CodeBlock(block) => block.render(),
            Element::Text(text) => text.render(),
        }
    }
}

/// Rendering is a function of the element alone: the strings that two runs
/// of `render` on one element give hold the same characters.
pub proof fn lemma_render_repeatable(element: Element, first: String, second: String)
    requires
        call_ensures(Element::render, (&element,), first),
        call_ensures(Element::render, (&element,), second),
    ensures
        first@ == second@,
{
}

} // verus!
