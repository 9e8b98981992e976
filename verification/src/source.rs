//! The parser's view of the token stream: a cursor that serves only the
//! structurally significant tokens, stepping over trivia.
use vstd::prelude::*;
use crate::lexer::Token;
use crate::token_kind::{TokenKind, spec_is_trivia};

verus! {

/// Index of the first non-trivia token at or after `i`, or the length of
/// the stream when only trivia remain.
pub open spec fn spec_next_nt(toks: Seq<Token<'_>>, i: int) -> int
    decreases toks.len() - i,
{
    if !(0 <= i < toks.len()) {
        toks.len() as int
    } else if !spec_is_trivia(toks[i].kind) {
        i
    } else {
        spec_next_nt(toks, i + 1)
    }
}

/// How many non-trivia tokens sit before position `upto`.
pub open spec fn nt_count(toks: Seq<Token<'_>>, upto: int) -> int
    decreases upto,
{
    if upto <= 0 {
        0
    } else {
        nt_count(toks, upto - 1) + if upto - 1 < toks.len() && !spec_is_trivia(
            toks[upto - 1].kind,
        ) {
            1int
        } else {
            0int
        }
    }
}

/// Basic facts about `spec_next_nt`: it only steps over trivia and stops at
/// a non-trivia token or the end.
pub proof fn lemma_next_nt(toks: Seq<Token<'_>>, i: int)
    requires
        0 <= i <= toks.len(),
    ensures
        i <= spec_next_nt(toks, i) <= toks.len(),
        forall|j: int| i <= j < spec_next_nt(toks, i) ==> spec_is_trivia(toks[j].kind),
        spec_next_nt(toks, i) < toks.len() ==> !spec_is_trivia(toks[spec_next_nt(toks, i)].kind),
    decreases toks.len() - i,
{
    if i < toks.len() && spec_is_trivia(toks[i].kind) {
        lemma_next_nt(toks, i + 1);
    }
}

/// Trivia contribute nothing to the non-trivia count.
pub proof fn lemma_nt_count_trivia_range(toks: Seq<Token<'_>>, i: int, m: int)
    requires
        0 <= i <= m <= toks.len(),
        forall|j: int| i <= j < m ==> spec_is_trivia(toks[j].kind),
    ensures
        nt_count(toks, m) == nt_count(toks, i),
    decreases m - i,
{
    if i < m {
        lemma_nt_count_trivia_range(toks, i, m - 1);
    }
}

/// Consuming the non-trivia token at `spec_next_nt` raises the count by one.
pub proof fn lemma_nt_count_step(toks: Seq<Token<'_>>, i: int)
    requires
        0 <= i <= toks.len(),
        spec_next_nt(toks, i) < toks.len(),
    ensures
        nt_count(toks, spec_next_nt(toks, i) + 1) == nt_count(toks, i) + 1,
{
    lemma_next_nt(toks, i);
    lemma_nt_count_trivia_range(toks, i, spec_next_nt(toks, i));
}

/// The count never decreases along the stream.
pub proof fn lemma_nt_count_mono(toks: Seq<Token<'_>>, i: int, m: int)
    requires
        i <= m,
    ensures
        nt_count(toks, i) <= nt_count(toks, m),
    decreases m - i,
{
    if i < m {
        lemma_nt_count_mono(toks, i, m - 1);
    }
}

/// When only trivia remain, the count up to the cursor is the whole count.
pub proof fn lemma_nt_count_at_end(toks: Seq<Token<'_>>, i: int)
    requires
        0 <= i <= toks.len(),
        spec_next_nt(toks, i) == toks.len(),
    ensures
        nt_count(toks, i) == nt_count(toks, toks.len() as int),
{
    lemma_next_nt(toks, i);
    lemma_nt_count_trivia_range(toks, i, toks.len() as int);
}

/// Scans forward from `i` to the first non-trivia token.
pub fn next_nt_index(tokens: &Vec<Token<'_>>, i: usize) -> (r: usize)
    requires
        i <= tokens@.len(),
    ensures
        r == spec_next_nt(tokens@, i as int),
        i <= r <= tokens@.len(),
    decreases tokens@.len() - i,
{
    if i < tokens.len() && tokens[i].kind.is_trivia() {
        next_nt_index(tokens, i + 1)
    } else {
        i
    }
}

/// The parser's token cursor: borrows the lexed stream and hands out
/// non-trivia tokens in order.
pub struct Source<'t, 'input> {
    pub tokens: &'t Vec<Token<'input>>,
    pub cursor: usize,
}

impl<'t, 'input> Source<'t, 'input> {
    /// Opens a cursor at the start of the stream.
    pub fn new(tokens: &'t Vec<Token<'input>>) -> (r: Source<'t, 'input>)
        ensures
            r.tokens@ == tokens@,
            r.cursor == 0,
    {
        Source { tokens, cursor: 0 }
    }

    /// Steps over trivia and consumes the next significant token.
    pub fn next_token(&mut self) -> (r: Option<&'t Token<'input>>)
        requires
            old(self).cursor <= old(self).tokens@.len(),
        ensures
            final(self).tokens@ == old(self).tokens@,
            match r {
                Some(t) => {
                    &&& spec_next_nt(old(self).tokens@, old(self).cursor as int)
                        < old(self).tokens@.len()
                    &&& *t == old(self).tokens@[spec_next_nt(
                        old(self).tokens@,
                        old(self).cursor as int,
                    )]
                    &&& final(self).cursor == spec_next_nt(
                        old(self).tokens@,
                        old(self).cursor as int,
                    ) + 1
                },
                None => {
                    &&& spec_next_nt(old(self).tokens@, old(self).cursor as int)
                        == old(self).tokens@.len()
                    &&& final(self).cursor == old(self).tokens@.len()
                },
            },
    {
        let idx = next_nt_index(self.tokens, self.cursor);
        if idx < self.tokens.len() {
            self.cursor = idx + 1;
            Some(&self.tokens[idx])
        } else {
            self.cursor = idx;
            None
        }
    }

    /// The next significant token, without consuming it.
    pub fn peek_token(&self) -> (r: Option<&'t Token<'input>>)
        requires
            self.cursor <= self.tokens@.len(),
        ensures
            match r {
                Some(t) => {
                    &&& spec_next_nt(self.tokens@, self.cursor as int) < self.tokens@.len()
                    &&& *t == self.tokens@[spec_next_nt(self.tokens@, self.cursor as int)]
                },
                None => spec_next_nt(self.tokens@, self.cursor as int) == self.tokens@.len(),
            },
    {
        let idx = next_nt_index(self.tokens, self.cursor);
        if idx < self.tokens.len() {
            Some(&self.tokens[idx])
        } else {
            None
        }
    }

    /// The kind of the next significant token, without consuming it.
    pub fn peek_kind(&self) -> (r: Option<TokenKind>)
        requires
            self.cursor <= self.tokens@.len(),
        ensures
            r == spec_peek(self.tokens@, self.cursor as int),
    {
        match self.peek_token() {
            Some(t) => Some(t.kind),
            None => None,
        }
    }

    /// The span of the last token of the stream, trivia included.
    pub fn last_token_range(&self) -> (r: Option<(usize, usize)>)
        ensures
            match r {
                Some(p) => self.tokens@.len() > 0 && p.0 == self.tokens@.last().start && p.1
                    == self.tokens@.last().end,
                None => self.tokens@.len() == 0,
            },
    {
        let n = self.tokens.len();
        if n > 0 {
            Some((self.tokens[n - 1].start, self.tokens[n - 1].end))
        } else {
            None
        }
    }
}

/// The kind of the next significant token at or after `i`, if any.
pub open spec fn spec_peek(toks: Seq<Token<'_>>, i: int) -> Option<TokenKind> {
    if spec_next_nt(toks, i) < toks.len() {
        Some(toks[spec_next_nt(toks, i)].kind)
    } else {
        None
    }
}

} // verus!
