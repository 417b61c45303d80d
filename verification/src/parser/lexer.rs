//! The lexer: one pass over the characters of a Markdown source, giving the
//! ordered tokens with the line and column at which each starts.

use crate::strings::{chars_of, string_of};
use vstd::prelude::*;

verus! {

#[derive(Debug, PartialEq, Eq, Clone, Copy, Structural)]
pub enum TokenType {
    TEXT,
    NEWLINE,
    HASH,
    BACKTICK,
    ASTERISK,
}

/// A lexical unit: its kind, the characters it covers, and the zero-based
/// (line, column) of its first character.
#[derive(Debug, PartialEq)]
pub struct Token {
    pub token_type: TokenType,
    pub value: String,
    pub location: (usize, usize),
}

/// The mathematical content of a [`Token`].
pub struct TokenView {
    pub kind: TokenType,
    pub value: Seq<char>,
    pub line: nat,
    pub column: nat,
}

impl View for Token {
    type V = TokenView;

    open spec fn view(&self) -> TokenView {
        TokenView {
            kind: self.token_type,
            value: self.value@,
            line: self.location.0 as nat,
            column: self.location.1 as nat,
        }
    }
}

impl Clone for Token {
    fn clone(&self) -> (out: Self)
        ensures
            out@ == self@,
    {
        Token {
            token_type: self.token_type,
            value: self.value.clone(),
            location: (self.location.0, self.location.1),
        }
    }
}

/// The views of a sequence of tokens, in order.
pub open spec fn token_views(tokens: Seq<Token>) -> Seq<TokenView> {
    tokens.map_values(|t: Token| t@)
}

/// The kind of the one-character token that `c` forms at the start of a token,
/// if it forms one there.
pub open spec fn symbol_kind(c: char) -> Option<TokenType> {
    if c == '#' {
        Some(TokenType::HASH)
    } else if c == '*' {
        Some(TokenType::ASTERISK)
    } else if c == '`' {
        Some(TokenType::BACKTICK)
    } else if c == '\n' {
        Some(TokenType::NEWLINE)
    } else {
        None
    }
}

/// Whether `c` ends a text run that has begun before it.
pub open spec fn ends_run(c: char) -> bool {
    c == '\n' || c == '*' || c == '_' || c == '`'
}

/// How many characters from index `from` on a text run takes in: all those
/// before the first one that ends a run, or before the end of `s`.
pub open spec fn run_len(s: Seq<char>, from: int) -> nat
    decreases s.len() - from,
{
    if 0 <= from < s.len() && !ends_run(s[from]) {
        1 + run_len(s, from + 1)
    } else {
        0
    }
}

/// A run that starts inside `s` ends inside `s`.
pub proof fn lemma_run_within(s: Seq<char>, from: int)
    requires
        0 <= from <= s.len(),
    ensures
        from + run_len(s, from) <= s.len(),
    decreases s.len() - from,
{
    if from < s.len() && !ends_run(s[from]) {
        lemma_run_within(s, from + 1);
    }
}

/// The length of the token that starts at index `i` of `s`: one for a symbol,
/// and for text the first character and the run that follows it.
pub open spec fn token_len(s: Seq<char>, i: int) -> nat {
    if symbol_kind(s[i]) is Some {
        1
    } else {
        1 + run_len(s, i + 1)
    }
}

/// The token that starts at index `i` of `s`, when the cursor stands at `at`.
pub open spec fn token_at(s: Seq<char>, i: int, at: (nat, nat)) -> TokenView {
    TokenView {
        kind: match symbol_kind(s[i]) {
            Some(kind) => kind,
            None => TokenType::TEXT,
        },
        value: s.subrange(i, i + token_len(s, i)),
        line: at.0,
        column: at.1,
    }
}

/// The (line, column) cursor after the token that starts at index `i`: a
/// newline opens the next line at column 0, any other token moves the column
/// on by its length.
pub open spec fn cursor_after(s: Seq<char>, i: int, at: (nat, nat)) -> (nat, nat) {
    if s[i] == '\n' {
        (at.0 + 1, 0)
    } else {
        (at.0, at.1 + token_len(s, i))
    }
}

/// The tokens of `s` from index `i` on, the cursor standing at `at`.
pub open spec fn tokens_from(s: Seq<char>, i: int, at: (nat, nat)) -> Seq<TokenView>
    decreases s.len() - i,
{
    if 0 <= i < s.len() {
        proof {
            lemma_run_within(s, i + 1);
        }
        seq![token_at(s, i, at)] + tokens_from(s, i + token_len(s, i), cursor_after(s, i, at))
    } else {
        Seq::empty()
    }
}

/// Where the cursor stands once `s` has been read from index `i` to its end.
pub open spec fn cursor_from(s: Seq<char>, i: int, at: (nat, nat)) -> (nat, nat)
    decreases s.len() - i,
{
    if 0 <= i < s.len() {
        proof {
            lemma_run_within(s, i + 1);
        }
        cursor_from(s, i + token_len(s, i), cursor_after(s, i, at))
    } else {
        at
    }
}

/// The tokens of a whole source, read from line 0, column 0.
pub open spec fn tokenize(s: Seq<char>) -> Seq<TokenView> {
    tokens_from(s, 0, (0, 0))
}

fn is_run_end(c: char) -> (b: bool)
    ensures
        b == ends_run(c),
{
    c == '\n' || c == '*' || c == '_' || c == '`'
}

/// The state of lexing one source: the tokens found so far, the characters
/// of the source, and the (line, column) at which the next token will start.
#[derive(Debug)]
pub struct Lexer {
    pub tokens: Vec<Token>,
    pub input: Vec<char>,
    pub position: (usize, usize),
}

impl Lexer {
    /// The (line, column) at which the next token will be placed.
    pub open spec fn cursor(&self) -> (nat, nat) {
        (self.position.0 as nat, self.position.1 as nat)
    }

    /// The cursor can move on by the length of the source within `usize`.
    pub open spec fn has_room(&self) -> bool {
        &&& self.position.0 + self.input@.len() <= usize::MAX
        &&& self.position.1 + self.input@.len() <= usize::MAX
    }

    /// A lexer at the start of `source`, with no tokens yet.
    pub fn new(source: &str) -> (lexer: Self)
        ensures
            lexer.input@ == source@,
            lexer.tokens@.len() == 0,
            lexer.position == (0usize, 0usize),
            lexer.has_room(),
    {
        let input = chars_of(source);
        assert(input@.len() == input.len());
        Lexer { input, tokens: Vec::new(), position: (0, 0) }
    }

    /// Reads the whole source and appends its tokens to `tokens`, placing
    /// them from the current cursor on.
    pub fn scan(&mut self)
        requires
            old(self).has_room(),
        ensures
            final(self).input@ == old(self).input@,
            token_views(final(self).tokens@) == token_views(old(self).tokens@) + tokens_from(
                old(self).input@,
                0,
                old(self).cursor(),
            ),
            final(self).cursor() == cursor_from(old(self).input@, 0, old(self).cursor()),
    {
        let ghost s = self.input@;
        let ghost all = token_views(self.tokens@) + tokens_from(s, 0, self.cursor());
        let ghost end = cursor_from(s, 0, self.cursor());
        let mut index: usize = 0;
        while index < self.input.len()
            invariant
                self.input@ == s,
                index <= s.len(),
                self.position.0 + (s.len() - index) <= usize::MAX,
                self.position.1 + (s.len() - index) <= usize::MAX,
                token_views(self.tokens@) + tokens_from(s, index as int, self.cursor()) == all,
                cursor_from(s, index as int, self.cursor()) == end,
            decreases s.len() - index,
        {
            let ghost found = self.tokens@;
            let ghost start = index;
            let ghost at = self.cursor();
            index = self.scan_token(index);
            proof {
                assert(self.tokens@ == found.push(self.tokens@.last()));
                assert(token_views(self.tokens@) == token_views(found).push(
                    token_at(s, start as int, at),
                ));
                assert(token_views(found).push(token_at(s, start as int, at)) + tokens_from(
                    s,
                    index as int,
                    self.cursor(),
                ) == token_views(found) + tokens_from(s, start as int, at));
            }
        }
    }

    /// Reads the one token that starts at `index` and appends it; returns the
    /// index at which the next token starts.
    fn scan_token(&mut self, index: usize) -> (next: usize)
        requires
            index < old(self).input@.len(),
            old(self).position.0 + (old(self).input@.len() - index) <= usize::MAX,
            old(self).position.1 + (old(self).input@.len() - index) <= usize::MAX,
        ensures
            final(self).input@ == old(self).input@,
            next == index + token_len(old(self).input@, index as int),
            next <= old(self).input@.len(),
            final(self).tokens@.len() == old(self).tokens@.len() + 1,
            final(self).tokens@.drop_last() == old(self).tokens@,
            final(self).tokens@.last()@ == token_at(
                old(self).input@,
                index as int,
                old(self).cursor(),
            ),
            final(self).cursor() == cursor_after(old(self).input@, index as int, old(self).cursor()),
            final(self).position.0 + (old(self).input@.len() - next) <= usize::MAX,
            final(self).position.1 + (old(self).input@.len() - next) <= usize::MAX,
    {
        let ghost s = self.input@;
        let len = self.input.len();
        let first = self.input[index];
        let mut end: usize = index + 1;
        let kind = match first {
            '#' => TokenType::HASH,
            '*' => TokenType::ASTERISK,
            '`' => TokenType::BACKTICK,
            '\n' => TokenType::NEWLINE,
            _ => {
                while end < len && !is_run_end(self.input[end])
                    invariant
                        self.input@ == s,
                        len == s.len(),
                        index < end <= s.len(),
                        run_len(s, index + 1) == (end - (index + 1)) + run_len(s, end as int),
                    decreases s.len() - end,
                {
                    end += 1;
                }
                TokenType::TEXT
            },
        };
        let token = Token {
            token_type: kind,
            value: string_of(&self.input, index, end),
            location: (self.position.0, self.position.1),
        };
        if first == '\n' {
            self.position.0 += 1;
            self.position.1 = 0;
        } else {
            self.position.1 += end - index;
        }
        self.tokens.push(token);
        end
    }
}

} // verus!
