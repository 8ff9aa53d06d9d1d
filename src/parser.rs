//! Resolves the jump targets of loops in a token stream.
use vstd::prelude::*;
use crate::lexer::{Lexer, Token, TokenType, is_repeatable, symbol_kind, tokens_of};

verus! {

/// Why a token stream has no resolution.
#[derive(Debug, Clone, Copy, PartialEq, Eq, Structural)]
pub enum ParserError {
    /// A `]` at this operation index closes no open `[`.
    UnmatchedBracket(usize),
    /// The text ended after this many operations with the `[` at the second
    /// index still open.
    UnexpectedEof(usize, usize),
}

/// How a token changes the nesting depth.
pub open spec fn delta(t: Token) -> int {
    if t.token_type == TokenType::OpenBracket {
        1
    } else if t.token_type == TokenType::CloseBracket {
        -1
    } else {
        0
    }
}

/// The nesting depth after the first `n` tokens: opened minus closed brackets.
pub open spec fn depth(toks: Seq<Token>, n: int) -> int
    decreases n,
{
    if n <= 0 {
        0
    } else {
        depth(toks, n - 1) + delta(toks[n - 1])
    }
}

/// No prefix of the stream closes more brackets than it opens.
pub open spec fn never_negative(toks: Seq<Token>) -> bool {
    forall|k: int| 0 <= k <= toks.len() ==> depth(toks, k) >= 0
}

/// The stream is well bracketed: no prefix closes more than it opens, and
/// all that are opened are closed.
pub open spec fn well_bracketed(toks: Seq<Token>) -> bool {
    never_negative(toks) && depth(toks, toks.len() as int) == 0
}

/// The `]` at index `i` is the first one that closes no open `[`.
pub open spec fn unmatched_close_at(toks: Seq<Token>, i: int) -> bool {
    &&& 0 <= i < toks.len()
    &&& toks[i].token_type == TokenType::CloseBracket
    &&& depth(toks, i) == 0
    &&& forall|k: int| 0 <= k <= i ==> depth(toks, k) >= 0
}

/// The `[` at `j` and the `]` at `i` form a pair.
pub open spec fn matching(toks: Seq<Token>, j: int, i: int) -> bool {
    &&& 0 <= j < i < toks.len()
    &&& toks[j].token_type == TokenType::OpenBracket
    &&& toks[i].token_type == TokenType::CloseBracket
    &&& depth(toks, i + 1) == depth(toks, j)
    &&& forall|k: int| j < k <= i ==> depth(toks, k) > depth(toks, j)
}

/// The `[` at `j` is open after the first `n` tokens.
pub open spec fn open_at(toks: Seq<Token>, j: int, n: int) -> bool {
    &&& 0 <= j < n
    &&& toks[j].token_type == TokenType::OpenBracket
    &&& forall|k: int| j < k <= n ==> depth(toks, k) > depth(toks, j)
}

/// The `[` at `j` is the innermost one left open at the end of the stream.
pub open spec fn innermost_unmatched_open(toks: Seq<Token>, j: int) -> bool {
    &&& open_at(toks, j, toks.len() as int)
    &&& depth(toks, j) == depth(toks, toks.len() as int) - 1
}

/// `ops` is `toks` with the jump targets of each bracket pair filled in: a
/// `]` holds the index of its `[`, a `[` the index just after its `]`.
pub open spec fn resolved(toks: Seq<Token>, ops: Seq<Token>) -> bool {
    &&& ops.len() == toks.len()
    &&& forall|i: int|
        0 <= i < toks.len() ==> {
            &&& (#[trigger] ops[i]).token_type == toks[i].token_type
            &&& ops[i].loc == toks[i].loc
            &&& toks[i].token_type == TokenType::CloseBracket ==> ops[i].size is Some
                && matching(toks, ops[i].size->0 as int, i)
            &&& toks[i].token_type == TokenType::OpenBracket ==> ops[i].size is Some
                && ops[i].size->0 >= 1 && matching(toks, i, ops[i].size->0 - 1)
            &&& toks[i].token_type != TokenType::CloseBracket && toks[i].token_type
                != TokenType::OpenBracket ==> ops[i].size == toks[i].size
        }
}

/// What resolving `toks` gives: the resolved operations, or the first error.
pub open spec fn resolution_of(toks: Seq<Token>, r: Result<Seq<Token>, ParserError>) -> bool {
    &&& (r is Ok <==> well_bracketed(toks))
    &&& r matches Ok(ops) ==> resolved(toks, ops)
    &&& !never_negative(toks) ==> (r matches Err(ParserError::UnmatchedBracket(i))
        && unmatched_close_at(toks, i as int))
    &&& never_negative(toks) && depth(toks, toks.len() as int) > 0 ==> (r matches Err(
        ParserError::UnexpectedEof(n, j),
    ) && n == toks.len() && innermost_unmatched_open(toks, j as int))
}

/// The view of a parse result, with the operations as a sequence.
pub open spec fn result_view(r: Result<Vec<Token>, ParserError>) -> Result<Seq<Token>, ParserError> {
    match r {
        Ok(ops) => Ok(ops@),
        Err(e) => Err(e),
    }
}

/// A text made of comment characters only resolves to no operations.
pub proof fn lemma_comments_only_resolve(s: Seq<char>, r: Result<Seq<Token>, ParserError>)
    requires
        forall|i: int| 0 <= i < s.len() ==> symbol_kind(#[trigger] s[i]) is None,
        resolution_of(tokens_of(s), r),
    ensures
        r == Ok::<Seq<Token>, ParserError>(Seq::empty()),
{
    crate::lexer::lemma_comments_only(s);
    let toks = tokens_of(s);
    assert(depth(toks, 0) == 0);
    assert(well_bracketed(toks));
    assert(r->Ok_0 =~= Seq::<Token>::empty());
}

/// A well-bracketed stream resolves, and each `[` holds the index just after
/// its `]`: the `]` stands at one less than the `[`'s target.
pub proof fn lemma_well_bracketed_resolves(toks: Seq<Token>, r: Result<Seq<Token>, ParserError>)
    requires
        resolution_of(toks, r),
        well_bracketed(toks),
    ensures
        r is Ok,
        forall|j: int|
            0 <= j < toks.len() && toks[j].token_type == TokenType::OpenBracket ==> {
                let target = (#[trigger] r->Ok_0[j]).size->0 as int;
                &&& target >= 1
                &&& toks[target - 1].token_type == TokenType::CloseBracket
                &&& matching(toks, j, target - 1)
                &&& r->Ok_0[target - 1].size == Some(j as usize)
            },
{
    let ops = r->Ok_0;
    assert forall|j: int|
        0 <= j < toks.len() && toks[j].token_type == TokenType::OpenBracket implies {
            let target = (#[trigger] ops[j]).size->0 as int;
            &&& target >= 1
            &&& toks[target - 1].token_type == TokenType::CloseBracket
            &&& matching(toks, j, target - 1)
            &&& ops[target - 1].size == Some(j as usize)
        } by {
        let i = ops[j].size->0 - 1;
        assert(matching(toks, j, i));
        let j2 = ops[i].size->0 as int;
        assert(matching(toks, j2, i));
        if j2 < j {
            assert(depth(toks, j) > depth(toks, j2));
            assert(depth(toks, j + 1) == depth(toks, j) + 1);
        } else if j < j2 {
            assert(depth(toks, j2) > depth(toks, j));
            assert(depth(toks, j2 + 1) == depth(toks, j2) + 1);
        }
    }
}

/// The first `]` that closes no open `[` is the error reported, at its index.
pub proof fn lemma_unmatched_close(toks: Seq<Token>, r: Result<Seq<Token>, ParserError>, i: int)
    requires
        resolution_of(toks, r),
        unmatched_close_at(toks, i),
    ensures
        r == Err::<Seq<Token>, ParserError>(ParserError::UnmatchedBracket(i as usize)),
{
    assert(depth(toks, i + 1) < 0);
    let i2 = choose|i2: usize| r == Err::<Seq<Token>, ParserError>(ParserError::UnmatchedBracket(i2));
    assert(unmatched_close_at(toks, i2 as int));
    if (i2 as int) < i {
        assert(depth(toks, i2 + 1) < 0);
    } else if i < (i2 as int) {
        assert(depth(toks, i + 1) < 0);
    }
}

/// When every `]` has its `[` but some `[` stays open, the error reported
/// gives the number of operations and the index of the innermost open `[`.
pub proof fn lemma_unmatched_open(toks: Seq<Token>, r: Result<Seq<Token>, ParserError>, j: int)
    requires
        resolution_of(toks, r),
        never_negative(toks),
        innermost_unmatched_open(toks, j),
    ensures
        r == Err::<Seq<Token>, ParserError>(ParserError::UnexpectedEof(toks.len() as usize, j as usize)),
{
    let n = toks.len() as int;
    assert(depth(toks, n) > depth(toks, j));
    let (n2, j2) = choose|n2: usize, j2: usize| r == Err::<Seq<Token>, ParserError>(ParserError::UnexpectedEof(n2, j2));
    assert(innermost_unmatched_open(toks, j2 as int));
    if (j2 as int) < j {
        assert(depth(toks, j) > depth(toks, j2 as int));
    } else if j < (j2 as int) {
        assert(depth(toks, j2 as int) > depth(toks, j));
    }
}

/// Every operation has what running it needs: a run length for the
/// repeatable kinds, and a jump target inside the program for the brackets,
/// forward for `[` and backward for `]`.
pub open spec fn ops_wf(ops: Seq<Token>) -> bool {
    forall|i: int|
        0 <= i < ops.len() ==> {
            let t = #[trigger] ops[i];
            &&& t.token_type == TokenType::OpenBracket ==> t.size is Some && i < t.size->0 <= ops.len()
            &&& t.token_type == TokenType::CloseBracket ==> t.size is Some && t.size->0 < i
            &&& is_repeatable(t.token_type) ==> t.size is Some
        }
}

/// The resolved operations of a source text are fit to run.
pub proof fn lemma_resolved_wf(s: Seq<char>, ops: Seq<Token>)
    requires
        resolved(tokens_of(s), ops),
    ensures
        ops_wf(ops),
{
    let toks = tokens_of(s);
    crate::lexer::lemma_tokens_sized(s, 0);
    assert forall|i: int| 0 <= i < ops.len() implies {
        let t = #[trigger] ops[i];
        &&& t.token_type == TokenType::OpenBracket ==> t.size is Some && i < t.size->0 <= ops.len()
        &&& t.token_type == TokenType::CloseBracket ==> t.size is Some && t.size->0 < i
        &&& is_repeatable(t.token_type) ==> t.size is Some
    } by {
        assert(toks[i] == tokens_of(s)[i]);
    }
}

/// Turns source text into resolved operations.
#[derive(Debug)]
pub struct Parser {
    lexer: Lexer,
}

impl Parser {
    pub closed spec fn wf(&self) -> bool {
        self.lexer.wf()
    }

    /// The tokens not yet read, without the end token.
    pub closed spec fn pending(&self) -> Seq<Token> {
        self.lexer.pending()
    }

    /// The source text.
    pub closed spec fn text(&self) -> Seq<char> {
        self.lexer.text()
    }

    /// The position in the text of the next character to read.
    pub closed spec fn pos(&self) -> int {
        self.lexer.pos()
    }

    /// A parser at the start of `input`.
    pub fn new(input: String) -> (r: Parser)
        ensures
            r.wf(),
            r.text() == input@,
            r.pos() == 0,
            r.pending() == tokens_of(input@),
    {
        Parser { lexer: Lexer::new(input) }
    }

    /// Reads the remaining tokens and resolves the jump targets of the loops.
    ///
    /// A `]` that closes no open `[` fails at once with its operation index;
    /// a `[` left open at the end fails with the number of operations and the
    /// index of the innermost open `[`.
    pub fn parse(&mut self) -> (r: Result<Vec<Token>, ParserError>)
        requires
            old(self).wf(),
        ensures
            final(self).wf(),
            resolution_of(old(self).pending(), result_view(r)),
    {
        let ghost full = self.lexer.pending();
        let ghost s = self.lexer.text();
        proof {
            self.lexer.lemma_wf();
            crate::lexer::lemma_tokens_len(s, self.lexer.pos());
        }
        let mut jump_stack: Vec<usize> = Vec::new();
        let mut ops: Vec<Token> = Vec::new();
        let mut done = false;
        let mut error: Option<ParserError> = None;
        while !done
            invariant
                self.lexer.wf(),
                self.lexer.text() == s,
                full.len() <= usize::MAX,
                !done ==> self.lexer.pending() == full.subrange(ops@.len() as int, full.len() as int),
                done && error is None ==> ops@.len() == full.len(),
                ops@.len() <= full.len(),
                error is None ==> forall|k: int| 0 <= k <= ops@.len() ==> depth(full, k) >= 0,
                error is None ==> jump_stack@.len() == depth(full, ops@.len() as int),
                error is Some ==> done,
                error matches Some(e) ==> (e matches ParserError::UnmatchedBracket(i)
                    && unmatched_close_at(full, i as int)),
                forall|d: int|
                    0 <= d < jump_stack@.len() ==> open_at(full, #[trigger] jump_stack@[d] as int, ops@.len() as int)
                        && depth(full, jump_stack@[d] as int) == d,
                forall|i: int|
                    0 <= i < ops@.len() ==> {
                        &&& (#[trigger] ops@[i]).token_type == full[i].token_type
                        &&& ops@[i].loc == full[i].loc
                        &&& full[i].token_type == TokenType::CloseBracket ==> ops@[i].size is Some
                            && matching(full, ops@[i].size->0 as int, i)
                        &&& full[i].token_type == TokenType::OpenBracket && !open_at(full, i, ops@.len() as int)
                            ==> ops@[i].size is Some && ops@[i].size->0 >= 1 && matching(full, i, ops@[i].size->0 - 1)
                        &&& full[i].token_type != TokenType::CloseBracket && full[i].token_type
                            != TokenType::OpenBracket ==> ops@[i].size == full[i].size
                    },
            decreases full.len() - ops@.len() + (if done { 0int } else { 1int }),
        {
            let ghost n = ops@.len() as int;
            let ghost before = self.lexer.pending();
            let ghost p_old = self.lexer.pos();
            let mut token = self.lexer.next_token();
            proof {
                reveal_with_fuel(crate::lexer::tokens_from, 1);
                if token.token_type != TokenType::Eof {
                    assert(before == seq![token] + self.lexer.pending());
                    assert(full[n] == before[0]);
                    assert(self.lexer.pending() =~= before.subrange(1, before.len() as int));
                    assert(self.lexer.pending() =~= full.subrange(n + 1, full.len() as int));
                } else {
                    assert(before.len() == 0);
                }
            }
            let loc = ops.len();
            match token.token_type {
                TokenType::Eof => {
                    done = true;
                },
                TokenType::OpenBracket => {
                    jump_stack.push(loc);
                    ops.push(token);
                },
                TokenType::CloseBracket => {
                    match jump_stack.pop() {
                        None => {
                            error = Some(ParserError::UnmatchedBracket(loc));
                            done = true;
                        },
                        Some(jump) => {
                            token.size = Some(jump);
                            let mut open = ops[jump];
                            open.size = Some(loc + 1);
                            ops.set(jump, open);
                            ops.push(token);
                        },
                    }
                },
                _ => {
                    ops.push(token);
                },
            }
        }
        match error {
            Some(e) => {
                proof {
                    let i = choose|i: usize| e == ParserError::UnmatchedBracket(i);
                    assert(depth(full, i + 1) < 0);
                }
                Err(e)
            },
            None => {
                match jump_stack.pop() {
                    Some(open) => Err(ParserError::UnexpectedEof(ops.len(), open)),
                    None => Ok(ops),
                }
            },
        }
    }
}

} // verus!
