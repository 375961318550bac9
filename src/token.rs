use vstd::prelude::*;

verus! {

/// A source range, as the first and last position it covers.
#[derive(Clone, Copy, Debug, PartialEq, Eq, Structural)]
pub struct Span {
    pub lo: u64,
    pub hi: u64,
}

/// The smallest span covering both arguments.
pub open spec fn join(a: Span, b: Span) -> Span {
    Span {
        lo: if a.lo <= b.lo { a.lo } else { b.lo },
        hi: if a.hi >= b.hi { a.hi } else { b.hi },
    }
}

impl Span {
    pub fn join(self, other: Span) -> (r: Span)
        ensures
            r == join(self, other),
    {
        Span {
            lo: if self.lo <= other.lo { self.lo } else { other.lo },
            hi: if self.hi >= other.hi { self.hi } else { other.hi },
        }
    }
}

/// The kind of bracket that encloses a group.
#[derive(Clone, Copy, Debug, PartialEq, Eq, Structural)]
pub enum Delim {
    Paren,
    Brace,
    Bracket,
    Invisible,
}

/// A delimited group of tokens.
#[derive(Debug)]
pub struct Group {
    pub delim: Delim,
    pub body: Vec<Token>,
    pub span: Span,
}

/// One lexical token; texts are kept as characters.
#[derive(Debug)]
pub enum Token {
    Ident(Vec<char>, Span),
    Literal(Vec<char>, Span),
    Punct(char, bool, Span),
    Group(Group),
}

/// The mathematical value of a group.
pub struct GroupV {
    pub delim: Delim,
    pub body: Seq<Tok>,
    pub span: Span,
}

/// The mathematical value of a token: identifier and literal texts, the
/// punctuation character with its "joint" flag, and nested groups.
pub enum Tok {
    Ident(Seq<char>, Span),
    Literal(Seq<char>, Span),
    Punct(char, bool, Span),
    Group(GroupV),
}

impl Tok {
    pub open spec fn span(self) -> Span {
        match self {
            Tok::Ident(_, s) => s,
            Tok::Literal(_, s) => s,
            Tok::Punct(_, _, s) => s,
            Tok::Group(g) => g.span,
        }
    }
}

pub open spec fn token_view(t: Token) -> Tok
    decreases t, 1nat,
{
    match t {
        Token::Ident(s, sp) => Tok::Ident(s@, sp),
        Token::Literal(s, sp) => Tok::Literal(s@, sp),
        Token::Punct(c, j, sp) => Tok::Punct(c, j, sp),
        Token::Group(g) => Tok::Group(GroupV { delim: g.delim, body: tokens_view(g.body@), span: g.span }),
    }
}

pub open spec fn tokens_view(s: Seq<Token>) -> Seq<Tok>
    decreases s, 0nat,
{
    if s.len() == 0 {
        Seq::empty()
    } else {
        tokens_view(s.drop_last()).push(token_view(s.last()))
    }
}

pub open spec fn group_view(g: Group) -> GroupV {
    GroupV { delim: g.delim, body: tokens_view(g.body@), span: g.span }
}

impl View for Token {
    type V = Tok;

    open spec fn view(&self) -> Tok {
        token_view(*self)
    }
}

impl View for Group {
    type V = GroupV;

    open spec fn view(&self) -> GroupV {
        group_view(*self)
    }
}

/// The view of a token sequence is the view of each token, in order.
pub broadcast proof fn lemma_tokens_view(s: Seq<Token>)
    ensures
        #[trigger] tokens_view(s).len() == s.len(),
        forall|i: int| 0 <= i < s.len() ==> tokens_view(s)[i] == token_view(#[trigger] s[i]),
    decreases s.len(),
{
    if s.len() > 0 {
        lemma_tokens_view(s.drop_last());
        assert forall|i: int| 0 <= i < s.len() implies tokens_view(s)[i] == token_view(#[trigger] s[i]) by {
            if i < s.len() - 1 {
                assert(s.drop_last()[i] == s[i]);
            }
        }
    }
}

/// Two token sequences with the same views token by token have the same view.
pub proof fn lemma_tokens_view_eq(a: Seq<Token>, b: Seq<Token>)
    requires
        a.len() == b.len(),
        forall|i: int| 0 <= i < a.len() ==> token_view(#[trigger] a[i]) == token_view(b[i]),
    ensures
        tokens_view(a) == tokens_view(b),
{
    lemma_tokens_view(a);
    lemma_tokens_view(b);
    assert forall|i: int| 0 <= i < a.len() implies tokens_view(a)[i] == tokens_view(b)[i] by {
        assert(token_view(a[i]) == token_view(b[i]));
    }
    assert(tokens_view(a) =~= tokens_view(b));
}

pub fn copy_chars(s: &Vec<char>) -> (r: Vec<char>)
    ensures
        r@ == s@,
{
    let mut r: Vec<char> = Vec::new();
    let mut i: usize = 0;
    while i < s.len()
        invariant
            i <= s.len(),
            r@ == s@.subrange(0, i as int),
        decreases s.len() - i,
    {
        r.push(s[i]);
        i = i + 1;
    }
    assert(r@ =~= s@);
    r
}

impl Token {
    pub fn span(&self) -> (r: Span)
        ensures
            r == self@.span(),
    {
        match self {
            Token::Ident(_, s) => *s,
            Token::Literal(_, s) => *s,
            Token::Punct(_, _, s) => *s,
            Token::Group(g) => g.span,
        }
    }

    /// A deep copy of the token.
    pub fn copy(&self) -> (r: Token)
        ensures
            r@ == self@,
        decreases self,
    {
        match self {
            Token::Ident(s, sp) => Token::Ident(copy_chars(s), *sp),
            Token::Literal(s, sp) => Token::Literal(copy_chars(s), *sp),
            Token::Punct(c, j, sp) => Token::Punct(*c, *j, *sp),
            Token::Group(g) => {
                let body = copy_tokens(&g.body);
                Token::Group(Group { delim: g.delim, body, span: g.span })
            },
        }
    }
}

/// A deep copy of a token sequence.
pub fn copy_tokens(v: &Vec<Token>) -> (r: Vec<Token>)
    ensures
        tokens_view(r@) == tokens_view(v@),
    decreases v,
{
    let mut r: Vec<Token> = Vec::new();
    let mut i: usize = 0;
    while i < v.len()
        invariant
            i <= v.len(),
            r@.len() == i,
            forall|j: int| 0 <= j < i ==> token_view(#[trigger] r@[j]) == token_view(v@[j]),
        decreases v.len() - i,
    {
        assert(decreases_to!(v => v@[i as int]));
        let t = v[i].copy();
        r.push(t);
        i = i + 1;
    }
    proof {
        lemma_tokens_view_eq(r@, v@);
    }
    r
}

/// Appends deep copies of `ts` to `output`.
pub fn extend_copies(ts: &Vec<Token>, output: &mut Vec<Token>)
    ensures
        tokens_view(final(output)@) == tokens_view(old(output)@) + tokens_view(ts@),
{
    let mut i: usize = 0;
    while i < ts.len()
        invariant
            i <= ts.len(),
            tokens_view(output@) == tokens_view(old(output)@) + tokens_view(ts@.subrange(0, i as int)),
        decreases ts.len() - i,
    {
        let ghost before = output@;
        output.push(ts[i].copy());
        proof {
            let p = ts@.subrange(0, i + 1);
            assert(p.drop_last() =~= ts@.subrange(0, i as int));
            assert(output@.drop_last() =~= before);
            assert(tokens_view(output@) =~= tokens_view(old(output)@) + tokens_view(p));
        }
        i = i + 1;
    }
    assert(ts@.subrange(0, i as int) =~= ts@);
}

pub proof fn lemma_tokens_view_push(s: Seq<Token>, t: Token)
    ensures
        tokens_view(s.push(t)) == tokens_view(s) + seq![token_view(t)],
{
    assert(s.push(t).drop_last() =~= s);
    assert(tokens_view(s.push(t)) =~= tokens_view(s) + seq![token_view(t)]);
}

pub proof fn lemma_prefix_trans(a: Seq<Tok>, b: Seq<Tok>, c: Seq<Tok>)
    requires
        a.is_prefix_of(b),
        b.is_prefix_of(c),
    ensures
        a.is_prefix_of(c),
{
    assert forall|i: int| 0 <= i < a.len() implies a[i] == c[i] by {
        assert(a[i] == b[i]);
    }
    assert(a =~= c.subrange(0, a.len() as int));
}

} // verus!
