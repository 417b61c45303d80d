//! The parser: a recursive descent over the lexer's tokens that builds the
//! document tree.
//!
//! ```text
//! document   := expression (NEWLINE* expression)*
//! expression := heading | text
//! heading    := HASH+ text
//! text       := TEXT
//! ```
//!
//! Where no token is left, `expression` gives a placeholder instead of
//! failing. A parse that fails consumes nothing.

use super::lexer::{token_views, Lexer, Token, TokenType, TokenView};
use crate::strings::{decimal, push_decimal};
use crate::types::elements;
use vstd::prelude::*;
use vstd::string::*;

verus! {

/// Style bit of a text run: italic.
pub const ITALIC_STYLE: u8 = 0b001;

/// Style bit of a text run: bold.
pub const BOLD_STYLE: u8 = 0b010;

/// Style bit of a text run: inline code.
pub const CODE_STYLE: u8 = 0b100;

/// The deepest heading: the longest run of hashes that opens one.
pub const MAX_LEVEL: u8 = 255;

// The tree

/// A text node: one text token and the run of characters it holds.
pub struct Text {
    pub token: Token,
    pub text: String,
}

/// A heading node: the number of hashes that open it, and its caption.
pub struct Heading {
    pub level: u8,
    pub text: Text,
}

/// The placeholder for an expression where no token was left.
pub struct Noop {}

/// A node of the document tree.
pub enum Expression {
    Text(Text),
    Heading(Heading),
    Noop(Noop),
}

pub struct Exp {
    pub item: Expression,
}

/// The document: its expressions in source order.
pub struct Node {
    pub children: Vec<Exp>,
}

/// The mathematical content of a [`Text`] node.
pub struct TextNode {
    pub token: TokenView,
    pub text: Seq<char>,
}

/// The mathematical content of a [`Heading`] node.
pub struct HeadingNode {
    pub level: nat,
    pub text: TextNode,
}

/// The mathematical content of an [`Expression`].
pub enum ExpressionView {
    Text(TextNode),
    Heading(HeadingNode),
    Noop,
}

impl View for Text {
    type V = TextNode;

    open spec fn view(&self) -> TextNode {
        TextNode { token: self.token@, text: self.text@ }
    }
}

impl View for Heading {
    type V = HeadingNode;

    open spec fn view(&self) -> HeadingNode {
        HeadingNode { level: self.level as nat, text: self.text@ }
    }
}

impl View for Expression {
    type V = ExpressionView;

    open spec fn view(&self) -> ExpressionView {
        match self {
            Expression::Text(text) => ExpressionView::Text(text@),
            Expression::Heading(heading) => ExpressionView::Heading(heading@),
            Expression::Noop(_) => ExpressionView::Noop,
        }
    }
}

impl View for Exp {
    type V = ExpressionView;

    open spec fn view(&self) -> ExpressionView {
        self.item@
    }
}

impl View for Node {
    type V = Seq<ExpressionView>;

    open spec fn view(&self) -> Seq<ExpressionView> {
        self.children@.map_values(|e: Exp| e@)
    }
}

// The bridge to renderable elements

/// The run that holds `literal` and has no style.
pub open spec fn plain(literal: Seq<char>) -> elements::StyledText {
    elements::StyledText { literal, style: 0 }
}

/// Whether `element` is what stands for `node` in an HTML document: for a
/// text node the paragraph of one plain run that holds its text, for a
/// heading node the heading of its level whose caption is that paragraph,
/// and for the placeholder the empty paragraph.
pub open spec fn stands_for(element: elements::Element, node: ExpressionView) -> bool {
    match node {
        ExpressionView::Text(text) => element matches elements::Element::Paragraph(paragraph)
            && paragraph@ == seq![plain(text.text)],
        ExpressionView::Heading(heading) => element matches elements::Element::Heading(h) && h@
            == (elements::HeadingView {
            caption: seq![plain(heading.text.text)],
            level: heading.level as u8,
        }),
        ExpressionView::Noop => element matches elements::Element::Paragraph(paragraph)
            && paragraph@ == Seq::<elements::StyledText>::empty(),
    }
}

/// A node of the document tree, as far as it can be turned into a
/// renderable element.
pub trait AST {
    /// The node that this value is.
    spec fn node(&self) -> ExpressionView;

    fn convert_to_renderable(&self) -> (element: elements::Element)
        ensures
            stands_for(element, self.node()),
    ;
}

impl AST for Text {
    open spec fn node(&self) -> ExpressionView {
        ExpressionView::Text(self@)
    }

    fn convert_to_renderable(&self) -> (element: elements::Element) {
        let text = elements::Paragraph::plain(self.text.clone());
        elements::Element::Paragraph(text)
    }
}

impl AST for Heading {
    open spec fn node(&self) -> ExpressionView {
        ExpressionView::Heading(self@)
    }

    fn convert_to_renderable(&self) -> (element: elements::Element) {
        let caption = elements::Paragraph::plain(self.text.text.clone());
        let heading = elements::Heading::new(caption, self.level);
        elements::Element::Heading(heading)
    }
}

impl AST for Noop {
    open spec fn node(&self) -> ExpressionView {
        ExpressionView::Noop
    }

    fn convert_to_renderable(&self) -> (element: elements::Element) {
        let blank = elements::Paragraph::new();
        elements::Element::Paragraph(blank)
    }
}

impl AST for Expression {
    open spec fn node(&self) -> ExpressionView {
        self@
    }

    fn convert_to_renderable(&self) -> (element: elements::Element) {
        match self {
            Expression::Text(text) => text.convert_to_renderable(),
            Expression::Heading(heading) => heading.convert_to_renderable(),
            Expression::Noop(noop) => noop.convert_to_renderable(),
        }
    }
}

// Failure

/// Why a token stream is not a document.
#[derive(Debug, PartialEq)]
pub enum ParseError {
    /// A text token had to come next; `found` is what came, `None` at the
    /// end of the tokens.
    ExpectedText { found: Option<Token> },
    /// No expression starts with `token`.
    UnexpectedToken { token: Token },
    /// A heading opens with more than `MAX_LEVEL` hashes; `hash` is the
    /// first one beyond them.
    HeadingTooDeep { hash: Token },
}

/// The mathematical content of a [`ParseError`].
pub enum ParseErrorView {
    ExpectedText { found: Option<TokenView> },
    UnexpectedToken { token: TokenView },
    HeadingTooDeep { hash: TokenView },
}

impl View for ParseError {
    type V = ParseErrorView;

    open spec fn view(&self) -> ParseErrorView {
        match self {
            ParseError::ExpectedText { found } => ParseErrorView::ExpectedText {
                found: match found {
                    Some(token) => Some(token@),
                    None => None,
                },
            },
            ParseError::UnexpectedToken { token } => ParseErrorView::UnexpectedToken {
                token: token@,
            },
            ParseError::HeadingTooDeep { hash } => ParseErrorView::HeadingTooDeep { hash: hash@ },
        }
    }
}

/// Where a token stands, as a message shows it.
pub open spec fn place(token: TokenView) -> Seq<char> {
    " (line "@ + decimal(token.line) + ", column "@ + decimal(token.column) + ")"@
}

/// The message that describes a failure: what was wrong, and where.
pub open spec fn message_of(error: ParseErrorView) -> Seq<char> {
    match error {
        ParseErrorView::ExpectedText { found: Some(token) } => "Invalid expression for text!"@
            + place(token),
        ParseErrorView::ExpectedText { found: None } => "Invalid expression for text!"@
            + " (end of input)"@,
        ParseErrorView::UnexpectedToken { token } => "Invalid Exp type!"@ + place(token),
        ParseErrorView::HeadingTooDeep { hash } => "Invalid heading level!"@ + place(hash),
    }
}

/// Appends the place of `token` to `out`.
fn push_place(out: &mut String, token: &Token)
    ensures
        final(out)@ == old(out)@ + place(token@),
{
    let ghost before = out@;
    out.append(" (line ");
    push_decimal(out, token.location.0);
    out.append(", column ");
    push_decimal(out, token.location.1);
    out.append(")");
    assert(out@ =~= before + place(token@));
}

impl ParseError {
    /// What was wrong, and where, in words.
    pub fn message(&self) -> (out: String)
        ensures
            out@ == message_of(self@),
    {
        let mut out = String::new();
        match self {
            ParseError::ExpectedText { found: Some(token) } => {
                out.append("Invalid expression for text!");
                push_place(&mut out, token);
            },
            ParseError::ExpectedText { found: None } => {
                out.append("Invalid expression for text!");
                out.append(" (end of input)");
            },
            ParseError::UnexpectedToken { token } => {
                out.append("Invalid Exp type!");
                push_place(&mut out, token);
            },
            ParseError::HeadingTooDeep { hash } => {
                out.append("Invalid heading level!");
                push_place(&mut out, hash);
            },
        }
        out
    }
}

// The grammar

/// How many hash tokens stand in a row from index `at` of `ts` on.
pub open spec fn hash_run(ts: Seq<TokenView>, at: int) -> nat
    decreases ts.len() - at,
{
    if 0 <= at < ts.len() && ts[at].kind == TokenType::HASH {
        1 + hash_run(ts, at + 1)
    } else {
        0
    }
}

/// A run of hashes that starts inside `ts` ends inside `ts`.
pub proof fn lemma_hash_run_within(ts: Seq<TokenView>, at: int)
    requires
        0 <= at <= ts.len(),
    ensures
        at + hash_run(ts, at) <= ts.len(),
    decreases ts.len() - at,
{
    if at < ts.len() && ts[at].kind == TokenType::HASH {
        lemma_hash_run_within(ts, at + 1);
    }
}

/// `text`: the token at index `at` must be a text token. Gives the node and
/// the index after it.
pub open spec fn text_rule(ts: Seq<TokenView>, at: int) -> Result<(TextNode, int), ParseErrorView> {
    if 0 <= at < ts.len() {
        if ts[at].kind == TokenType::TEXT {
            Ok((TextNode { token: ts[at], text: ts[at].value }, at + 1))
        } else {
            Err(ParseErrorView::ExpectedText { found: Some(ts[at]) })
        }
    } else {
        Err(ParseErrorView::ExpectedText { found: None })
    }
}

/// `heading`: the run of hashes from index `at` on, at most `MAX_LEVEL` of
/// them, then `text`. The level is the length of the run.
pub open spec fn heading_rule(ts: Seq<TokenView>, at: int) -> Result<
    (HeadingNode, int),
    ParseErrorView,
> {
    let level = hash_run(ts, at);
    if level > MAX_LEVEL {
        Err(ParseErrorView::HeadingTooDeep { hash: ts[at + MAX_LEVEL] })
    } else {
        match text_rule(ts, at + level) {
            Ok((text, next)) => Ok((HeadingNode { level, text }, next)),
            Err(e) => Err(e),
        }
    }
}

/// `expression`: a heading where a hash comes next, a text node where a text
/// token does, the placeholder where no token is left, and a failure
/// otherwise.
pub open spec fn expression_rule(ts: Seq<TokenView>, at: int) -> Result<
    (ExpressionView, int),
    ParseErrorView,
> {
    if 0 <= at < ts.len() {
        if ts[at].kind == TokenType::TEXT {
            match text_rule(ts, at) {
                Ok((text, next)) => Ok((ExpressionView::Text(text), next)),
                Err(e) => Err(e),
            }
        } else if ts[at].kind == TokenType::HASH {
            match heading_rule(ts, at) {
                Ok((heading, next)) => Ok((ExpressionView::Heading(heading), next)),
                Err(e) => Err(e),
            }
        } else {
            Err(ParseErrorView::UnexpectedToken { token: ts[at] })
        }
    } else {
        Ok((ExpressionView::Noop, at))
    }
}

/// What follows the first expression of a document: newlines are passed
/// over, and an expression is read wherever another token comes, until none
/// is left.
pub open spec fn rest_rule(ts: Seq<TokenView>, at: int) -> Result<
    Seq<ExpressionView>,
    ParseErrorView,
>
    decreases ts.len() - at,
{
    if 0 <= at < ts.len() {
        if ts[at].kind == TokenType::NEWLINE {
            rest_rule(ts, at + 1)
        } else {
            proof {
                lemma_hash_run_within(ts, at);
            }
            match expression_rule(ts, at) {
                Ok((first, next)) => match rest_rule(ts, next) {
                    Ok(more) => Ok(seq![first] + more),
                    Err(e) => Err(e),
                },
                Err(e) => Err(e),
            }
        }
    } else {
        Ok(Seq::empty())
    }
}

/// `document`: one expression, then the rest.
pub open spec fn document_rule(ts: Seq<TokenView>, at: int) -> Result<
    Seq<ExpressionView>,
    ParseErrorView,
> {
    match expression_rule(ts, at) {
        Ok((first, next)) => match rest_rule(ts, next) {
            Ok(more) => Ok(seq![first] + more),
            Err(e) => Err(e),
        },
        Err(e) => Err(e),
    }
}

// The parser

/// A copy of `tokens`.
fn copy_tokens(tokens: &Vec<Token>) -> (out: Vec<Token>)
    ensures
        token_views(out@) == token_views(tokens@),
{
    let mut out: Vec<Token> = Vec::new();
    let mut i: usize = 0;
    while i < tokens.len()
        invariant
            i <= tokens.len(),
            out@.len() == i,
            forall|j: int| 0 <= j < i ==> out@[j]@ == tokens@[j]@,
        decreases tokens.len() - i,
    {
        out.push(tokens[i].clone());
        i += 1;
    }
    assert(token_views(out@) =~= token_views(tokens@));
    out
}

/// The state of parsing one token stream: the lexer that gave the tokens,
/// the tokens, the index of the next one, and the tree of the last parse.
pub struct Parser {
    pub lexer: Lexer,
    pub tokens: Vec<Token>,
    pub cursor: usize,
    pub tree: Node,
}

impl Parser {
    /// The tokens that this parser reads.
    pub open spec fn stream(&self) -> Seq<TokenView> {
        token_views(self.tokens@)
    }

    /// A parser at the first of the lexer's tokens, with an empty tree.
    pub fn new(lexer: Lexer) -> (parser: Self)
        ensures
            parser.lexer == lexer,
            parser.stream() == token_views(lexer.tokens@),
            parser.cursor == 0,
            parser.tree@ == Seq::<ExpressionView>::empty(),
    {
        let root = Node { children: Vec::new() };
        let input_lexer = lexer;
        let input_tokens = copy_tokens(&input_lexer.tokens);
        Parser { lexer: input_lexer, tokens: input_tokens, cursor: 0, tree: root }
    }

    /// `text`: takes the next token if it is a text token.
    fn text(&mut self) -> (result: Result<Text, ParseError>)
        ensures
            *final(self) == (Parser { cursor: final(self).cursor, ..*old(self) }),
            match text_rule(old(self).stream(), old(self).cursor as int) {
                Ok((node, next)) => result matches Ok(text) && text@ == node && final(self).cursor
                    == next,
                Err(e) => result matches Err(error) && error@ == e && final(self).cursor == old(self).cursor,
            },
    {
        if self.cursor < self.tokens.len() {
            let token = &self.tokens[self.cursor];
            if token.token_type == TokenType::TEXT {
                let node = Text { token: token.clone(), text: token.value.clone() };
                self.cursor += 1;
                Ok(node)
            } else {
                Err(ParseError::ExpectedText { found: Some(token.clone()) })
            }
        } else {
            Err(ParseError::ExpectedText { found: None })
        }
    }

    /// `heading`: takes the hashes that come next, then the caption.
    fn heading(&mut self) -> (result: Result<Heading, ParseError>)
        ensures
            *final(self) == (Parser { cursor: final(self).cursor, ..*old(self) }),
            match heading_rule(old(self).stream(), old(self).cursor as int) {
                Ok((node, next)) => result matches Ok(heading) && heading@ == node && final(self).cursor == next,
                Err(e) => result matches Err(error) && error@ == e && final(self).cursor == old(self).cursor,
            },
    {
        let ghost ts = self.stream();
        let start = self.cursor;
        let mut heading_size: u8 = 0;
        while self.cursor < self.tokens.len() && self.tokens[self.cursor].token_type
            == TokenType::HASH
            invariant
                *self == (Parser { cursor: self.cursor, ..*old(self) }),
                ts == self.stream(),
                start == old(self).cursor,
                self.cursor == start + heading_size,
                hash_run(ts, start as int) == heading_size + hash_run(ts, self.cursor as int),
            decreases self.tokens.len() - self.cursor,
        {
            assert(ts[self.cursor as int] == self.tokens@[self.cursor as int]@);
            assert(hash_run(ts, self.cursor as int) >= 1);
            if heading_size == MAX_LEVEL {
                let error = ParseError::HeadingTooDeep { hash: self.tokens[self.cursor].clone() };
                assert(error@ == ParseErrorView::HeadingTooDeep { hash: ts[start + MAX_LEVEL] });
                assert(hash_run(ts, start as int) > MAX_LEVEL);
                self.cursor = start;
                return Err(error);
            }
            heading_size += 1;
            self.cursor += 1;
        }
        match self.text() {
            Ok(heading_text) => Ok(Heading { level: heading_size, text: heading_text }),
            Err(error) => {
                self.cursor = start;
                Err(error)
            },
        }
    }

    /// `expression`: a heading, a text node, or the placeholder.
    fn exp(&mut self) -> (result: Result<Exp, ParseError>)
        ensures
            *final(self) == (Parser { cursor: final(self).cursor, ..*old(self) }),
            match expression_rule(old(self).stream(), old(self).cursor as int) {
                Ok((node, next)) => result matches Ok(exp) && exp@ == node && final(self).cursor
                    == next,
                Err(e) => result matches Err(error) && error@ == e && final(self).cursor == old(self).cursor,
            },
    {
        if self.cursor >= self.tokens.len() {
            return Ok(Exp { item: Expression::Noop(Noop {  }) });
        }
        let token = &self.tokens[self.cursor];
        if token.token_type == TokenType::TEXT {
            return match self.text() {
                Ok(tree) => Ok(Exp { item: Expression::Text(tree) }),
                Err(error) => Err(error),
            };
        }
        if token.token_type == TokenType::HASH {
            return match self.heading() {
                Ok(tree) => Ok(Exp { item: Expression::Heading(tree) }),
                Err(error) => Err(error),
            };
        }
        Err(ParseError::UnexpectedToken { token: token.clone() })
    }

    /// `document`: one expression, then every other one up to the last token.
    fn node(&mut self) -> (result: Result<Node, ParseError>)
        ensures
            *final(self) == (Parser { cursor: final(self).cursor, ..*old(self) }),
            match document_rule(old(self).stream(), old(self).cursor as int) {
                Ok(document) => result matches Ok(node) && node@ == document && final(self).cursor
                    == if old(self).cursor <= old(self).tokens@.len() {
                    old(self).tokens@.len()
                } else {
                    old(self).cursor as nat
                },
                Err(e) => result matches Err(error) && error@ == e && final(self).cursor == old(self).cursor,
            },
    {
        let ghost ts = self.stream();
        let ghost goal = document_rule(ts, self.cursor as int);
        let start = self.cursor;
        let mut node = Node { children: Vec::new() };
        match self.exp() {
            Ok(exp) => {
                proof {
                    if start <= ts.len() {
                        lemma_hash_run_within(ts, start as int);
                    }
                }
                node.children.push(exp);
                assert(node@ =~= seq![exp@]);
            },
            Err(error) => {
                return Err(error);
            },
        }
        while self.cursor < self.tokens.len()
            invariant
                *self == (Parser { cursor: self.cursor, ..*old(self) }),
                ts == self.stream(),
                goal == document_rule(ts, start as int),
                start == old(self).cursor,
                start <= self.cursor,
                start > self.tokens@.len() ==> self.cursor == start,
                start <= self.tokens@.len() ==> self.cursor <= self.tokens@.len(),
                match rest_rule(ts, self.cursor as int) {
                    Ok(more) => goal == Ok::<Seq<ExpressionView>, ParseErrorView>(node@ + more),
                    Err(e) => goal == Err::<Seq<ExpressionView>, ParseErrorView>(e),
                },
            decreases self.tokens.len() - self.cursor,
        {
            assert(ts[self.cursor as int] == self.tokens@[self.cursor as int]@);
            if self.tokens[self.cursor].token_type == TokenType::NEWLINE {
                self.cursor += 1;
            } else {
                let ghost before = node@;
                let ghost at = self.cursor as int;
                match self.exp() {
                    Ok(exp) => {
                        proof {
                            lemma_hash_run_within(ts, at);
                        }
                        node.children.push(exp);
                        assert(node@ == before.push(exp@));
                        assert forall|more: Seq<ExpressionView>|
                            before + (seq![exp@] + more) == #[trigger] (node@ + more) by {
                            assert(before + (seq![exp@] + more) =~= node@ + more);
                        }
                    },
                    Err(error) => {
                        self.cursor = start;
                        return Err(error);
                    },
                }
            }
        }
        assert(node@ + Seq::<ExpressionView>::empty() =~= node@);
        Ok(node)
    }

    /// Parses the tokens from the cursor on and keeps the document as
    /// `tree`. On failure the parser is left as it was.
    pub fn parse(&mut self) -> (result: Result<(), ParseError>)
        ensures
            final(self).lexer == old(self).lexer,
            final(self).tokens == old(self).tokens,
            match document_rule(old(self).stream(), old(self).cursor as int) {
                Ok(document) => {
                    &&& result is Ok
                    &&& final(self).tree@ == document
                    &&& final(self).cursor == if old(self).cursor <= old(self).tokens@.len() {
                        old(self).tokens@.len()
                    } else {
                        old(self).cursor as nat
                    }
                },
                Err(e) => {
                    &&& result matches Err(error)
                    &&& error@ == e
                    &&& final(self).tree == old(self).tree
                    &&& final(self).cursor == old(self).cursor
                },
            },
    {
        match self.node() {
            Ok(node) => {
                self.tree = node;
                Ok(())
            },
            Err(error) => Err(error),
        }
    }
}

} // verus!
