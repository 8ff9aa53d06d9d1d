//! Splits source text into tokens, collapsing runs of repeated symbols.
use vstd::prelude::*;

verus! {

/// The kind of a token.
#[derive(Debug, Clone, Copy, PartialEq, Eq, Structural)]
pub enum TokenType {
    Eof,
    ShiftLeft,
    ShiftRight,
    Plus,
    Minus,
    Dot,
    Comma,
    OpenBracket,
    CloseBracket,
}

/// One token: its kind, its size and where it starts in the source.
///
/// For the six repeatable kinds the size is the number of symbols collapsed
/// into the token. After parsing, a bracket's size is its jump target.
#[derive(Debug, Clone, Copy, PartialEq, Eq, Structural)]
pub struct Token {
    /// The type of the token
    pub token_type: TokenType,
    /// The run length, or for a resolved bracket its jump target
    pub size: Option<usize>,
    /// The index of the token's first character in the source
    pub loc: usize,
}

/// The kind of token that a character stands for, if any.
pub open spec fn symbol_kind(c: char) -> Option<TokenType> {
    if c == '<' {
        Some(TokenType::ShiftLeft)
    } else if c == '>' {
        Some(TokenType::ShiftRight)
    } else if c == '+' {
        Some(TokenType::Plus)
    } else if c == '-' {
        Some(TokenType::Minus)
    } else if c == '.' {
        Some(TokenType::Dot)
    } else if c == ',' {
        Some(TokenType::Comma)
    } else if c == '[' {
        Some(TokenType::OpenBracket)
    } else if c == ']' {
        Some(TokenType::CloseBracket)
    } else {
        None
    }
}

impl Token {
    /// The token type of a character, or `None` for a comment character.
    pub fn is_token(c: &char) -> (r: Option<TokenType>)
        ensures
            r == symbol_kind(*c),
    {
        match *c {
            '<' => Some(TokenType::ShiftLeft),
            '>' => Some(TokenType::ShiftRight),
            '+' => Some(TokenType::Plus),
            '-' => Some(TokenType::Minus),
            '.' => Some(TokenType::Dot),
            ',' => Some(TokenType::Comma),
            '[' => Some(TokenType::OpenBracket),
            ']' => Some(TokenType::CloseBracket),
            _ => None,
        }
    }
}

/// Whether tokens of this kind collapse runs of repeated symbols.
pub open spec fn is_repeatable(k: TokenType) -> bool {
    !(k == TokenType::OpenBracket || k == TokenType::CloseBracket || k == TokenType::Eof)
}

/// The index of the first symbol at or after `p`, or the text's length if none.
pub open spec fn first_symbol(s: Seq<char>, p: int) -> int
    decreases s.len() - p,
{
    if p >= s.len() {
        s.len() as int
    } else if symbol_kind(s[p]) is Some {
        p
    } else {
        first_symbol(s, p + 1)
    }
}

/// Where a run of `k` symbols that goes on at `p` ends: the first index at or
/// after `p` that holds a symbol other than `k`, or the text's length.
pub open spec fn run_end(s: Seq<char>, p: int, k: TokenType) -> int
    decreases s.len() - p,
{
    if p >= s.len() {
        s.len() as int
    } else if symbol_kind(s[p]) is Some && symbol_kind(s[p]) != Some(k) {
        p
    } else {
        run_end(s, p + 1, k)
    }
}

/// How many `k` symbols stand between `p` and the end of the run.
pub open spec fn run_count(s: Seq<char>, p: int, k: TokenType) -> nat
    decreases s.len() - p,
{
    if p >= s.len() {
        0
    } else if symbol_kind(s[p]) is Some && symbol_kind(s[p]) != Some(k) {
        0
    } else if symbol_kind(s[p]) == Some(k) {
        1 + run_count(s, p + 1, k)
    } else {
        run_count(s, p + 1, k)
    }
}

/// The token read from position `p` of `s`, and the position after it.
pub open spec fn lex_step(s: Seq<char>, p: int) -> (Token, int) {
    let q = first_symbol(s, p);
    if q >= s.len() {
        (Token { token_type: TokenType::Eof, size: None, loc: s.len() as usize }, s.len() as int)
    } else {
        let k = symbol_kind(s[q])->0;
        if is_repeatable(k) {
            (
                Token { token_type: k, size: Some((1 + run_count(s, q + 1, k)) as usize), loc: q as usize },
                run_end(s, q + 1, k),
            )
        } else {
            (Token { token_type: k, size: None, loc: q as usize }, q + 1)
        }
    }
}

/// The tokens of `s` from position `p` on, up to and without the end token.
pub open spec fn tokens_from(s: Seq<char>, p: int) -> Seq<Token>
    decreases s.len() - p,
{
    let (t, next) = lex_step(s, p);
    if t.token_type == TokenType::Eof || !(p < next <= s.len()) {
        Seq::empty()
    } else {
        seq![t] + tokens_from(s, next)
    }
}

/// The tokens of a whole source text, without the end token.
pub open spec fn tokens_of(s: Seq<char>) -> Seq<Token> {
    tokens_from(s, 0)
}

/// A text of `n` characters gives at most `n` tokens.
pub proof fn lemma_tokens_len(s: Seq<char>, p: int)
    requires
        0 <= p <= s.len(),
    ensures
        tokens_from(s, p).len() <= s.len() - p,
    decreases s.len() - p,
{
    let (t, next) = lex_step(s, p);
    if !(t.token_type == TokenType::Eof || !(p < next <= s.len())) {
        lemma_tokens_len(s, next);
    }
}

/// How many times `c` occurs in `s` between positions `p` and `q`.
pub open spec fn occurrences(s: Seq<char>, c: char, p: int, q: int) -> nat
    decreases q - p,
{
    if p < 0 || p >= q || p >= s.len() {
        0
    } else if s[p] == c {
        1 + occurrences(s, c, p + 1, q)
    } else {
        occurrences(s, c, p + 1, q)
    }
}

/// Between `p` and `q` stand only `c` and comment characters, and the run
/// of `c` ends at `q`: the text ends there or holds another symbol.
pub open spec fn run_between(s: Seq<char>, c: char, p: int, q: int) -> bool {
    &&& 0 <= p <= q <= s.len()
    &&& forall|i: int| p <= i < q ==> #[trigger] s[i] == c || symbol_kind(s[i]) is None
    &&& q < s.len() ==> symbol_kind(s[q]) is Some && symbol_kind(s[q]) != symbol_kind(c)
}

proof fn lemma_no_symbol_from(s: Seq<char>, p: int)
    requires
        0 <= p <= s.len(),
        forall|i: int| p <= i < s.len() ==> symbol_kind(#[trigger] s[i]) is None,
    ensures
        first_symbol(s, p) == s.len(),
    decreases s.len() - p,
{
    if p < s.len() {
        lemma_no_symbol_from(s, p + 1);
    }
}

/// A text made of comment characters only has no tokens: the first token
/// read from it is the end token.
pub proof fn lemma_comments_only(s: Seq<char>)
    requires
        forall|i: int| 0 <= i < s.len() ==> symbol_kind(#[trigger] s[i]) is None,
    ensures
        lex_step(s, 0).0.token_type == TokenType::Eof,
        tokens_of(s) == Seq::<Token>::empty(),
{
    lemma_no_symbol_from(s, 0);
}

proof fn lemma_run_rest(s: Seq<char>, c: char, k: TokenType, p: int, q: int)
    requires
        symbol_kind(c) == Some(k),
        run_between(s, c, p, q),
    ensures
        run_count(s, p, k) == occurrences(s, c, p, q),
        run_end(s, p, k) == q,
    decreases q - p,
{
    if p < q {
        lemma_run_rest(s, c, k, p + 1, q);
    }
}

proof fn lemma_run_start(s: Seq<char>, c: char, k: TokenType, p: int, q: int)
    requires
        symbol_kind(c) == Some(k),
        run_between(s, c, p, q),
        occurrences(s, c, p, q) >= 1,
    ensures
        p <= first_symbol(s, p) < q,
        s[first_symbol(s, p)] == c,
        forall|i: int| p <= i < first_symbol(s, p) ==> s[i] != c,
        occurrences(s, c, p, q) == 1 + occurrences(s, c, first_symbol(s, p) + 1, q),
    decreases q - p,
{
    if p < q && s[p] != c {
        lemma_run_start(s, c, k, p + 1, q);
    }
}

/// A run of `n >= 1` copies of one repeatable symbol `c`, read from `p`,
/// with only comment characters between them and no other symbol before
/// its end `q`, is read as exactly one token: of that symbol's kind, with
/// size `n`, at the first `c`; reading goes on at `q`.
pub proof fn lemma_run(s: Seq<char>, c: char, p: int, q: int)
    requires
        s.len() <= usize::MAX,
        symbol_kind(c) is Some,
        is_repeatable(symbol_kind(c)->0),
        run_between(s, c, p, q),
        occurrences(s, c, p, q) >= 1,
    ensures
        ({
            let (t, next) = lex_step(s, p);
            &&& t.token_type == symbol_kind(c)->0
            &&& t.size == Some(occurrences(s, c, p, q) as usize)
            &&& p <= t.loc < q
            &&& s[t.loc as int] == c
            &&& forall|i: int| p <= i < t.loc ==> s[i] != c
            &&& next == q
        }),
{
    let k = symbol_kind(c)->0;
    lemma_run_start(s, c, k, p, q);
    let f = first_symbol(s, p);
    lemma_run_rest(s, c, k, f + 1, q);
}

/// A text whose only symbols are `n >= 1` copies of one repeatable symbol
/// `c` gives exactly one token, of that kind and with size `n`.
pub proof fn lemma_single_run(s: Seq<char>, c: char)
    requires
        s.len() <= usize::MAX,
        symbol_kind(c) is Some,
        is_repeatable(symbol_kind(c)->0),
        forall|i: int| 0 <= i < s.len() ==> #[trigger] s[i] == c || symbol_kind(s[i]) is None,
        occurrences(s, c, 0, s.len() as int) >= 1,
    ensures
        tokens_of(s).len() == 1,
        tokens_of(s)[0].token_type == symbol_kind(c)->0,
        tokens_of(s)[0].size == Some(occurrences(s, c, 0, s.len() as int) as usize),
{
    lemma_run(s, c, 0, s.len() as int);
    lemma_no_symbol_from(s, s.len() as int);
    reveal_with_fuel(tokens_from, 2);
    assert(tokens_from(s, s.len() as int) == Seq::<Token>::empty());
}

/// Every token read is a symbol's: none is the end token, and each of a
/// repeatable kind carries its run length.
pub proof fn lemma_tokens_sized(s: Seq<char>, p: int)
    ensures
        forall|i: int|
            0 <= i < tokens_from(s, p).len() ==> {
                let t = #[trigger] tokens_from(s, p)[i];
                &&& t.token_type != TokenType::Eof
                &&& is_repeatable(t.token_type) ==> t.size is Some
            },
    decreases s.len() - p,
{
    let (t, next) = lex_step(s, p);
    if !(t.token_type == TokenType::Eof || !(p < next <= s.len())) {
        lemma_tokens_sized(s, next);
        let rest = tokens_from(s, next);
        assert(tokens_from(s, p) == seq![t] + rest);
        assert forall|i: int| 0 < i < tokens_from(s, p).len() implies tokens_from(s, p)[i] == rest[i - 1] by {}
    }
}

/// Reads tokens one at a time from a source text.
#[derive(Debug)]
pub struct Lexer {
    input: String,
    len: usize,
    position: usize,
}

impl Lexer {
    /// The source text.
    pub closed spec fn text(&self) -> Seq<char> {
        self.input@
    }

    /// The position of the next character to read.
    pub closed spec fn pos(&self) -> int {
        self.position as int
    }

    pub closed spec fn wf(&self) -> bool {
        &&& self.len as int == self.input@.len()
        &&& self.position <= self.len
    }

    /// The tokens that are still to be read, without the end token.
    pub open spec fn pending(&self) -> Seq<Token> {
        tokens_from(self.text(), self.pos())
    }

    /// A lexer at the start of `input`.
    pub fn new(input: String) -> (r: Lexer)
        ensures
            r.wf(),
            r.text() == input@,
            r.pos() == 0,
            r.text().len() <= usize::MAX,
    {
        let len = input.as_str().unicode_len();
        Lexer { input, len, position: 0 }
    }

    /// A well-formed lexer stands within its text, whose length fits in `usize`.
    pub proof fn lemma_wf(&self)
        requires
            self.wf(),
        ensures
            0 <= self.pos() <= self.text().len() <= usize::MAX,
    {
    }

    /// Reads the character at the current position and moves past it.
    fn next_char(&mut self) -> (r: Option<char>)
        requires
            old(self).wf(),
        ensures
            final(self).wf(),
            final(self).text() == old(self).text(),
            old(self).pos() < old(self).text().len() ==> r == Some(old(self).text()[old(self).pos()])
                && final(self).pos() == old(self).pos() + 1,
            old(self).pos() >= old(self).text().len() ==> r is None && final(self).pos() == old(self).pos(),
    {
        if self.position < self.len {
            let c = self.input.as_str().get_char(self.position);
            self.position = self.position + 1;
            Some(c)
        } else {
            None
        }
    }

    /// Reads the next token; at the end of the text, an end token.
    ///
    /// Comment characters are skipped, also inside a run, and a run of one of
    /// the six repeatable symbols comes back as one token whose size is the
    /// length of the run.
    pub fn next_token(&mut self) -> (r: Token)
        requires
            old(self).wf(),
        ensures
            final(self).wf(),
            final(self).text() == old(self).text(),
            0 <= final(self).pos() <= final(self).text().len() <= usize::MAX,
            (r, final(self).pos()) == lex_step(old(self).text(), old(self).pos()),
            r.token_type != TokenType::Eof ==> old(self).pos() < final(self).pos(),
    {
        let ghost s = self.input@;
        let ghost p0 = self.position as int;
        let mut found: Option<(char, TokenType)> = None;
        let mut at_end = false;
        while found.is_none() && !at_end
            invariant
                self.wf(),
                self.input@ == s,
                p0 <= self.position,
                found is Some ==> self.position >= 1 && self.position > p0,
                found is None ==> first_symbol(s, p0) == first_symbol(s, self.position as int),
                at_end ==> found is None && self.position == s.len(),
                found matches Some((c, k)) ==> first_symbol(s, p0) == self.position - 1
                    && self.position - 1 < s.len() && s[self.position - 1] == c
                    && symbol_kind(c) == Some(k),
            decreases self.len - self.position + (if found is None && !at_end { 1int } else { 0int }),
        {
            match self.next_char() {
                Some(c) => {
                    match Token::is_token(&c) {
                        Some(k) => {
                            found = Some((c, k));
                        },
                        None => {},
                    }
                },
                None => {
                    at_end = true;
                },
            }
        }
        if at_end {
            return Token { token_type: TokenType::Eof, size: None, loc: self.len };
        }
        let (c, token_type) = found.unwrap();
        let loc = self.position - 1;
        match token_type {
            TokenType::OpenBracket | TokenType::CloseBracket | TokenType::Eof => {
                Token { token_type, size: None, loc }
            },
            _ => {
                let mut size: usize = 1;
                let mut done = false;
                while !done && self.position < self.len
                    invariant
                        self.wf(),
                        self.input@ == s,
                        loc + 1 <= self.position,
                        size <= self.position,
                        !done ==> 1 + run_count(s, loc + 1, token_type) == size + run_count(
                            s,
                            self.position as int,
                            token_type,
                        ) && run_end(s, loc + 1, token_type) == run_end(
                            s,
                            self.position as int,
                            token_type,
                        ),
                        done ==> 1 + run_count(s, loc + 1, token_type) == size && run_end(
                            s,
                            loc + 1,
                            token_type,
                        ) == self.position,
                    decreases self.len - self.position + (if done { 0int } else { 1int }),
                {
                    let next = self.input.as_str().get_char(self.position);
                    match Token::is_token(&next) {
                        Some(next_type) => {
                            if next_type == token_type {
                                size = size + 1;
                                self.position = self.position + 1;
                            } else {
                                done = true;
                            }
                        },
                        None => {
                            self.position = self.position + 1;
                        },
                    }
                }
                Token { token_type, size: Some(size), loc }
            },
        }
    }
}

} // verus!
