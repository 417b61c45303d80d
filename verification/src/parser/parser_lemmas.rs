//! What holds of the grammar for every token stream, and of the lexer and
//! the parser together on a heading line.

use super::lexer::{
    ends_run, lemma_run_within, run_len, symbol_kind, tokenize, tokens_from, TokenType,
    TokenView,
};
use super::parser::{
    document_rule, expression_rule, hash_run, lemma_hash_run_within, rest_rule, ExpressionView,
    HeadingNode, ParseErrorView, TextNode, MAX_LEVEL,
};
use vstd::prelude::*;

verus! {

/// An empty token stream is a document of one expression, the placeholder.
pub proof fn lemma_empty_stream()
    ensures
        tokenize(Seq::empty()) == Seq::<TokenView>::empty(),
        document_rule(Seq::empty(), 0) == Ok::<Seq<ExpressionView>, ParseErrorView>(
            seq![ExpressionView::Noop],
        ),
{
    let ts = Seq::<TokenView>::empty();
    assert(rest_rule(ts, 0) == Ok::<Seq<ExpressionView>, ParseErrorView>(Seq::empty()));
    assert(seq![ExpressionView::Noop] + Seq::empty() =~= seq![ExpressionView::Noop]);
}

/// A stretch of hashes that another token follows is a run of hashes of the
/// length of the stretch.
proof fn lemma_hash_run_counts(ts: Seq<TokenView>, at: int, n: nat)
    requires
        0 <= at,
        at + n <= ts.len(),
        forall|k: int| at <= k < at + n ==> (#[trigger] ts[k]).kind == TokenType::HASH,
        at + n < ts.len() ==> ts[at + n].kind != TokenType::HASH,
    ensures
        hash_run(ts, at) == n,
    decreases n,
{
    if n > 0 {
        lemma_hash_run_counts(ts, at + 1, (n - 1) as nat);
    }
}

/// The level of a heading is the number of hashes before its caption: where
/// `n` hashes, at least one and at most `MAX_LEVEL`, stand from index `at`
/// on and a text token follows them, `expression` gives the heading of level
/// `n` with that token as its caption, and goes on after the token.
pub proof fn lemma_heading_level(ts: Seq<TokenView>, at: int, n: nat)
    requires
        0 <= at,
        1 <= n <= MAX_LEVEL,
        at + n < ts.len(),
        forall|k: int| at <= k < at + n ==> (#[trigger] ts[k]).kind == TokenType::HASH,
        ts[at + n].kind == TokenType::TEXT,
    ensures
        expression_rule(ts, at) == Ok::<(ExpressionView, int), ParseErrorView>(
            (
                ExpressionView::Heading(
                    HeadingNode {
                        level: n,
                        text: TextNode { token: ts[at + n], text: ts[at + n].value },
                    },
                ),
                at + n + 1,
            ),
        ),
{
    lemma_hash_run_counts(ts, at, n);
    assert(ts[at].kind == TokenType::HASH);
}

/// Blank lines count for nothing: where only newlines stand from index `i`
/// up to index `j`, the rest of the document from `i` on is the rest from
/// `j` on.
pub proof fn lemma_newlines_skipped(ts: Seq<TokenView>, i: int, j: int)
    requires
        0 <= i <= j <= ts.len(),
        forall|k: int| i <= k < j ==> (#[trigger] ts[k]).kind == TokenType::NEWLINE,
    ensures
        rest_rule(ts, i) == rest_rule(ts, j),
    decreases j - i,
{
    if i < j {
        lemma_newlines_skipped(ts, i + 1, j);
    }
}

/// After the first expression no placeholder is read.
proof fn lemma_rest_without_placeholder(ts: Seq<TokenView>, at: int)
    requires
        rest_rule(ts, at) is Ok,
    ensures
        forall|i: int|
            0 <= i < rest_rule(ts, at)->Ok_0.len() ==> (#[trigger] rest_rule(ts, at)->Ok_0[i])
                != ExpressionView::Noop,
    decreases ts.len() - at,
{
    if 0 <= at < ts.len() {
        if ts[at].kind == TokenType::NEWLINE {
            lemma_rest_without_placeholder(ts, at + 1);
        } else {
            lemma_hash_run_within(ts, at);
            let (first, next) = expression_rule(ts, at)->Ok_0;
            lemma_rest_without_placeholder(ts, next);
            let more = rest_rule(ts, next)->Ok_0;
            assert(rest_rule(ts, at)->Ok_0 == seq![first] + more);
            assert forall|i: int| 0 <= i < (seq![first] + more).len() implies (#[trigger] (seq![
                first,
            ] + more)[i]) != ExpressionView::Noop by {
                if i > 0 {
                    assert((seq![first] + more)[i] == more[i - 1]);
                }
            }
        }
    }
}

/// The placeholder stands for an empty token stream only: the document of a
/// stream that holds a token holds no placeholder.
pub proof fn lemma_placeholder_only_when_empty(ts: Seq<TokenView>)
    requires
        ts.len() > 0,
        document_rule(ts, 0) is Ok,
    ensures
        forall|i: int|
            0 <= i < document_rule(ts, 0)->Ok_0.len() ==> (#[trigger] document_rule(
                ts,
                0,
            )->Ok_0[i]) != ExpressionView::Noop,
{
    lemma_hash_run_within(ts, 0);
    let (first, next) = expression_rule(ts, 0)->Ok_0;
    lemma_rest_without_placeholder(ts, next);
    let more = rest_rule(ts, next)->Ok_0;
    assert forall|i: int| 0 <= i < (seq![first] + more).len() implies (#[trigger] (seq![first]
        + more)[i]) != ExpressionView::Noop by {
        if i > 0 {
            assert((seq![first] + more)[i] == more[i - 1]);
        }
    }
}

// A heading line, from source to tree

/// Whether `text` is what one text token holds: a first character that is
/// no symbol, and after it no character that ends a run.
pub open spec fn is_text_run(text: Seq<char>) -> bool {
    &&& text.len() >= 1
    &&& symbol_kind(text[0]) is None
    &&& forall|k: int| 1 <= k < text.len() ==> !ends_run(#[trigger] text[k])
}

/// `n` hashes.
pub open spec fn hashes(n: nat) -> Seq<char> {
    Seq::new(n, |i: int| '#')
}

/// The hash token at column `column` of line 0.
pub open spec fn hash_token(column: nat) -> TokenView {
    TokenView { kind: TokenType::HASH, value: seq!['#'], line: 0, column }
}

/// The tokens of a line of `n` hashes and the text run `text`.
pub open spec fn heading_line_tokens(n: nat, text: Seq<char>) -> Seq<TokenView> {
    Seq::new(n, |i: int| hash_token(i as nat)) + seq![
        TokenView { kind: TokenType::TEXT, value: text, line: 0, column: n },
    ]
}

/// A run takes in all that is left where nothing that is left ends a run.
proof fn lemma_run_to_end(s: Seq<char>, from: int)
    requires
        0 <= from <= s.len(),
        forall|k: int| from <= k < s.len() ==> !ends_run(#[trigger] s[k]),
    ensures
        run_len(s, from) == s.len() - from,
    decreases s.len() - from,
{
    if from < s.len() {
        lemma_run_to_end(s, from + 1);
    }
}

/// The tokens of a heading line from its `i`-th hash on.
proof fn lemma_lex_heading_from(n: nat, text: Seq<char>, i: int)
    requires
        is_text_run(text),
        0 <= i <= n,
    ensures
        tokens_from(hashes(n) + text, i, (0, i as nat)) == heading_line_tokens(n, text).skip(i),
    decreases n - i,
{
    let s = hashes(n) + text;
    let line = heading_line_tokens(n, text);
    lemma_run_within(s, i + 1);
    if i < n {
        lemma_lex_heading_from(n, text, i + 1);
        assert(s[i] == '#');
        assert(s.subrange(i, i + 1) =~= seq!['#']);
        assert(line.skip(i) =~= seq![hash_token(i as nat)] + line.skip(i + 1));
    } else {
        assert(s[i] == text[0]);
        assert forall|k: int| n + 1 <= k < s.len() implies !ends_run(#[trigger] s[k]) by {
            assert(s[k] == text[k - n]);
        }
        lemma_run_to_end(s, (n + 1) as int);
        assert(s.subrange(n as int, s.len() as int) =~= text);
        assert(tokens_from(s, s.len() as int, (0, n + text.len())) =~= Seq::empty());
        assert(line.skip(i) =~= seq![line[n as int]]);
    }
}

/// A line of `n` hashes and a text run is lexed as `n` hash tokens and one
/// text token that holds the run.
pub proof fn lemma_lex_heading_line(n: nat, text: Seq<char>)
    requires
        is_text_run(text),
    ensures
        tokenize(hashes(n) + text) == heading_line_tokens(n, text),
{
    lemma_lex_heading_from(n, text, 0);
    assert(heading_line_tokens(n, text).skip(0) =~= heading_line_tokens(n, text));
}

/// A source of `n` hashes, at least one and at most `MAX_LEVEL`, and a text
/// run is a document of one heading, of level `n`, whose caption is the run.
pub proof fn lemma_heading_line(n: nat, text: Seq<char>)
    requires
        1 <= n <= MAX_LEVEL,
        is_text_run(text),
    ensures
        document_rule(tokenize(hashes(n) + text), 0) == Ok::<
            Seq<ExpressionView>,
            ParseErrorView,
        >(
            seq![
                ExpressionView::Heading(
                    HeadingNode {
                        level: n,
                        text: TextNode {
                            token: TokenView {
                                kind: TokenType::TEXT,
                                value: text,
                                line: 0,
                                column: n,
                            },
                            text,
                        },
                    },
                ),
            ],
        ),
{
    let ts = heading_line_tokens(n, text);
    lemma_lex_heading_line(n, text);
    lemma_heading_level(ts, 0, n);
    let heading = expression_rule(ts, 0)->Ok_0.0;
    assert(rest_rule(ts, (n + 1) as int) == Ok::<Seq<ExpressionView>, ParseErrorView>(Seq::empty()));
    assert(seq![heading] + Seq::empty() =~= seq![heading]);
}

} // verus!
