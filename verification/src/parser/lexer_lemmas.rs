//! What holds of the lexer's tokens for every source: their values, laid end
//! to end, are the source again, and each token's position is the line and
//! column of its first character, from which that character is found again.

use super::lexer::{
    cursor_after, ends_run, lemma_run_within, run_len, symbol_kind, token_at, token_len,
    tokenize, tokens_from, TokenView,
};
use vstd::prelude::*;

verus! {

/// The values of `ts`, laid end to end.
pub open spec fn values_joined(ts: Seq<TokenView>) -> Seq<char>
    decreases ts.len(),
{
    if ts.len() == 0 {
        Seq::empty()
    } else {
        ts[0].value + values_joined(ts.skip(1))
    }
}

/// How many characters the tokens before the `k`-th of `ts` hold together:
/// the index in the source at which the `k`-th token starts.
pub open spec fn offset_of(ts: Seq<TokenView>, k: int) -> nat
    decreases k,
{
    if k <= 0 {
        0
    } else {
        offset_of(ts, k - 1) + ts[k - 1].value.len()
    }
}

/// The line of index `i` of `s`: the number of newlines before it.
pub open spec fn line_of(s: Seq<char>, i: int) -> nat
    decreases i,
{
    if i <= 0 {
        0
    } else if s[i - 1] == '\n' {
        line_of(s, i - 1) + 1
    } else {
        line_of(s, i - 1)
    }
}

/// The column of index `i` of `s`: the number of characters between it and
/// the last newline before it, or the start of `s`.
pub open spec fn column_of(s: Seq<char>, i: int) -> nat
    decreases i,
{
    if i <= 0 {
        0
    } else if s[i - 1] == '\n' {
        0
    } else {
        column_of(s, i - 1) + 1
    }
}

/// Whether position `a` comes before position `b`, by line and then column.
pub open spec fn position_before(a: (nat, nat), b: (nat, nat)) -> bool {
    a.0 < b.0 || (a.0 == b.0 && a.1 < b.1)
}

/// No character that a run takes in ends a run.
proof fn lemma_run_chars(s: Seq<char>, from: int)
    requires
        0 <= from <= s.len(),
    ensures
        forall|k: int| from <= k < from + run_len(s, from) ==> !ends_run(#[trigger] s[k]),
    decreases s.len() - from,
{
    if from < s.len() && !ends_run(s[from]) {
        lemma_run_chars(s, from + 1);
    }
}

/// Over a stretch without a newline the line stays and the column grows by
/// the length of the stretch.
proof fn lemma_same_line(s: Seq<char>, a: int, b: int)
    requires
        0 <= a <= b <= s.len(),
        forall|k: int| a <= k < b ==> #[trigger] s[k] != '\n',
    ensures
        line_of(s, b) == line_of(s, a),
        column_of(s, b) == column_of(s, a) + (b - a),
    decreases b - a,
{
    if a < b {
        lemma_same_line(s, a, b - 1);
    }
}

/// The cursor follows the source: if it holds the line and column of the
/// index at which a token starts, then after the token it holds those of the
/// index at which the token ends.
proof fn lemma_cursor_tracks(s: Seq<char>, i: int)
    requires
        0 <= i < s.len(),
    ensures
        i + token_len(s, i) <= s.len(),
        cursor_after(s, i, (line_of(s, i), column_of(s, i))) == (
            line_of(s, i + token_len(s, i)),
            column_of(s, i + token_len(s, i)),
        ),
{
    lemma_run_within(s, i + 1);
    if symbol_kind(s[i]) is None {
        lemma_run_chars(s, i + 1);
        lemma_same_line(s, i, i + token_len(s, i));
    }
}

/// The values of the tokens from index `i` on are the source from `i` on.
proof fn lemma_values_from(s: Seq<char>, i: int, at: (nat, nat))
    requires
        0 <= i <= s.len(),
    ensures
        values_joined(tokens_from(s, i, at)) == s.subrange(i, s.len() as int),
    decreases s.len() - i,
{
    if i < s.len() {
        lemma_run_within(s, i + 1);
        let j = i + token_len(s, i);
        let rest = tokens_from(s, j, cursor_after(s, i, at));
        lemma_values_from(s, j, cursor_after(s, i, at));
        assert(tokens_from(s, i, at).skip(1) =~= rest);
        assert(s.subrange(i, j) + s.subrange(j, s.len() as int) =~= s.subrange(
            i,
            s.len() as int,
        ));
    } else {
        assert(s.subrange(i, s.len() as int) =~= Seq::empty());
    }
}

/// The values of the tokens of a source, laid end to end, are the source.
pub proof fn lemma_values_rebuild_source(s: Seq<char>)
    ensures
        values_joined(tokenize(s)) == s,
{
    lemma_values_from(s, 0, (0, 0));
    assert(s.subrange(0, s.len() as int) =~= s);
}

/// The offsets in a sequence of tokens, in terms of those in its tail.
proof fn lemma_offset_shift(first: TokenView, rest: Seq<TokenView>, k: int)
    requires
        0 <= k <= rest.len(),
    ensures
        offset_of(seq![first] + rest, k + 1) == first.value.len() + offset_of(rest, k),
    decreases k,
{
    let ts = seq![first] + rest;
    if k > 0 {
        lemma_offset_shift(first, rest, k - 1);
        assert(ts[k] == rest[k - 1]);
    } else {
        assert(offset_of(ts, 0) == 0);
        assert(ts[0] == first);
    }
}

/// The `k`-th of the tokens from index `i` on is the token that starts at
/// the index where the ones before it end, placed at the line and column of
/// that index.
proof fn lemma_token_from(s: Seq<char>, i: int, k: int)
    requires
        0 <= i <= s.len(),
        0 <= k < tokens_from(s, i, (line_of(s, i), column_of(s, i))).len(),
    ensures
        ({
            let ts = tokens_from(s, i, (line_of(s, i), column_of(s, i)));
            let start = i + offset_of(ts, k);
            &&& start < s.len()
            &&& start + token_len(s, start) <= s.len()
            &&& ts[k] == token_at(s, start, (line_of(s, start), column_of(s, start)))
        }),
    decreases k,
{
    let at = (line_of(s, i), column_of(s, i));
    let ts = tokens_from(s, i, at);
    lemma_cursor_tracks(s, i);
    let j = i + token_len(s, i);
    let rest = tokens_from(s, j, (line_of(s, j), column_of(s, j)));
    assert(ts =~= seq![token_at(s, i, at)] + rest);
    if k > 0 {
        lemma_token_from(s, j, k - 1);
        lemma_offset_shift(token_at(s, i, at), rest, k - 1);
        assert(ts[k] == rest[k - 1]);
    }
}

/// Each token of a source covers a stretch of the source that is not empty
/// and starts where the tokens before it end; its value is that stretch, and
/// its position is the line and column of the first character of it.
pub proof fn lemma_token_in_source(s: Seq<char>, k: int)
    requires
        0 <= k < tokenize(s).len(),
    ensures
        ({
            let token = tokenize(s)[k];
            let start = offset_of(tokenize(s), k);
            &&& token.value.len() >= 1
            &&& start + token.value.len() <= s.len()
            &&& token.value == s.subrange(start as int, (start + token.value.len()) as int)
            &&& token.line == line_of(s, start as int)
            &&& token.column == column_of(s, start as int)
        }),
{
    lemma_token_from(s, 0, k);
}

/// Later in the source means later by line and column: of two indices, the
/// greater has the later position. So no two indices share a position, and
/// an index is found again from its line and column.
pub proof fn lemma_positions_ordered(s: Seq<char>, a: int, b: int)
    requires
        0 <= a < b <= s.len(),
    ensures
        position_before((line_of(s, a), column_of(s, a)), (line_of(s, b), column_of(s, b))),
    decreases b - a,
{
    if a + 1 < b {
        lemma_positions_ordered(s, a, b - 1);
    }
}

/// Tokens start further on in the source, the later they come.
proof fn lemma_offsets_grow(s: Seq<char>, j: int, k: int)
    requires
        0 <= j < k < tokenize(s).len(),
    ensures
        offset_of(tokenize(s), j) < offset_of(tokenize(s), k),
    decreases k - j,
{
    lemma_token_in_source(s, k - 1);
    if j < k - 1 {
        lemma_offsets_grow(s, j, k - 1);
    }
}

/// The positions of the tokens of a source rise strictly, by line and then
/// column, in the order of the tokens.
pub proof fn lemma_tokens_ordered(s: Seq<char>, j: int, k: int)
    requires
        0 <= j < k < tokenize(s).len(),
    ensures
        position_before(
            (tokenize(s)[j].line, tokenize(s)[j].column),
            (tokenize(s)[k].line, tokenize(s)[k].column),
        ),
{
    lemma_token_in_source(s, j);
    lemma_token_in_source(s, k);
    lemma_offsets_grow(s, j, k);
    lemma_positions_ordered(
        s,
        offset_of(tokenize(s), j) as int,
        offset_of(tokenize(s), k) as int,
    );
}

} // verus!
