use vstd::prelude::*;
use crate::token::{Token, Tok, token_view, tokens_view, lemma_tokens_view};

verus! {

broadcast use lemma_tokens_view;

/// A reader over a token sequence into which further tokens can be spliced,
/// to be read before whatever remains.
pub struct TokenIter {
    /// The remaining tokens, the next one last.
    rev: Vec<Token>,
}

impl View for TokenIter {
    type V = Seq<Tok>;

    /// The tokens that remain to be read, the next one first.
    closed spec fn view(&self) -> Seq<Tok> {
        Seq::new(self.rev.len() as nat, |i: int| token_view(self.rev@[self.rev.len() - 1 - i]))
    }
}

impl TokenIter {
    pub fn new(tokens: Vec<Token>) -> (r: TokenIter)
        ensures
            r@ == tokens_view(tokens@),
    {
        let mut r = TokenIter { rev: Vec::new() };
        r.push_in_front(tokens);
        assert(r@ =~= tokens_view(tokens@));
        r
    }

    /// Takes the next token, if any remains.
    pub fn next(&mut self) -> (r: Option<Token>)
        ensures
            old(self)@.len() == 0 ==> r is None && final(self)@ == old(self)@,
            old(self)@.len() > 0 ==> r is Some && r->0@ == old(self)@[0]
                && final(self)@ == old(self)@.drop_first(),
    {
        let r = self.rev.pop();
        proof {
        if old(self).rev.len() > 0 {
            assert forall|i: int| 0 <= i < self@.len() implies self@[i] == old(self)@.drop_first()[i] by {
                assert(self.rev@[self.rev.len() - 1 - i] == old(self).rev@[old(self).rev.len() - 1 - (i + 1)]);
            }
            assert(self@ =~= old(self)@.drop_first());
        } else {
            assert(self@ =~= old(self)@);
        }
        }
        r
    }

    /// Splices `tokens` in front of what remains.
    pub fn push_in_front(&mut self, tokens: Vec<Token>)
        ensures
            final(self)@ == tokens_view(tokens@) + old(self)@,
    {
        let mut tokens = tokens;
        let ghost orig = tokens@;
        assert(tokens_view(orig).len() == orig.len());
        while tokens.len() > 0
            invariant
                tokens@.len() <= orig.len() == tokens_view(orig).len(),
                tokens@ == orig.subrange(0, tokens@.len() as int),
                self@ == tokens_view(orig).subrange(tokens@.len() as int, orig.len() as int) + old(self)@,
            decreases tokens.len(),
        {
            let ghost before = self@;
            let ghost k = tokens@.len();
            let t = tokens.pop().unwrap();
            assert(t == orig[k - 1]);
            self.rev.push(t);
            assert(self@ =~= seq![token_view(t)] + before);
            assert(tokens_view(orig).subrange(k - 1, orig.len() as int) =~= seq![tokens_view(orig)[k - 1]]
                + tokens_view(orig).subrange(k as int, orig.len() as int));
            assert(self@ =~= tokens_view(orig).subrange(tokens@.len() as int, orig.len() as int) + old(self)@);
        }
        assert(self@ =~= tokens_view(orig) + old(self)@);
    }

    pub fn is_empty(&self) -> (r: bool)
        ensures
            r == (self@.len() == 0),
    {
        self.rev.len() == 0
    }
}

} // verus!
