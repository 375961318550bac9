use vstd::prelude::*;
use std::rc::Rc;
use crate::token::{lemma_tokens_view_push, GroupV, Group, Span, Tok, Token, join, tokens_view, copy_chars, copy_tokens, extend_copies};
use crate::error::{EvalError, Reason, fail, lexer_dependent};
use crate::env::{Env, Item, IterScope, IterV, ScopeV, Val, iter_of, iter_view, push_scope, share,
    lemma_items_view, lemma_entries_view};
use crate::text::{concat_text, concat_text_of, decimal, decimal_chars, ident_of, parse_ident, plain_word};
use crate::cursor::TokenIter;
use crate::parse::{emitted, after, lemma_after_after, parse_block, parse_item_path, sem_block, sem_item_path};

verus! {

broadcast use crate::token::lemma_tokens_view;

/// How a block's body is emitted.
#[derive(Clone, Copy, Debug, PartialEq, Eq, Structural)]
pub enum BlockModifier {
    Concat,
    First,
    Last,
    NotFirst,
    NotLast,
}

/// How a referenced item is emitted: as itself, or as its length.
#[derive(Clone, Copy, Debug, PartialEq, Eq, Structural)]
pub enum ItemModifier {
    Plain,
    Len,
}

/// A directive that produces tokens.
pub enum Quote {
    Block(BlockModifier, Group),
    Iter(Group, Group),
    Item(ItemModifier, Group),
}

pub enum QuoteV {
    Block(BlockModifier, GroupV),
    Iter(GroupV, GroupV),
    Item(ItemModifier, GroupV),
}

impl View for Quote {
    type V = QuoteV;

    open spec fn view(&self) -> QuoteV {
        match self {
            Quote::Block(m, g) => QuoteV::Block(*m, g@),
            Quote::Iter(p, g) => QuoteV::Iter(p@, g@),
            Quote::Item(m, g) => QuoteV::Item(*m, g@),
        }
    }
}

impl QuoteV {
    pub open spec fn span(self) -> Span {
        match self {
            QuoteV::Block(_, b) => b.span,
            QuoteV::Iter(_, b) => b.span,
            QuoteV::Item(_, g) => g.span,
        }
    }
}

/// Evaluates `body` in a new scope, which belongs to `iter` if given.
pub open spec fn sem_scoped(fuel: nat, body: Seq<Tok>, e: Seq<ScopeV>, iter: Option<IterV>)
    -> Result<(Seq<Tok>, Seq<ScopeV>), EvalError>
    decreases fuel, 1nat,
{
    match sem_block(fuel, body, push_scope(e, iter)) {
        Err(x) => Err(x),
        Ok((o, e1)) => Ok((o, e1.drop_last())),
    }
}

/// Whether a block with modifier `m` is emitted under the iteration `it`.
/// Outside any iteration a `first` or `last` block is emitted and a negated
/// one is not.
pub open spec fn block_emits(m: BlockModifier, it: Option<IterV>) -> bool {
    match it {
        Some(i) => match m {
            BlockModifier::First => i.first,
            BlockModifier::Last => i.last,
            BlockModifier::NotFirst => !i.first,
            BlockModifier::NotLast => !i.last,
            BlockModifier::Concat => true,
        },
        None => !(m is NotFirst || m is NotLast),
    }
}

/// The keys and values that an iteration walks: a map's entries in the order
/// in which their keys were first bound, a list's elements keyed by
/// position, or any other item once, keyed `0`.
pub open spec fn elements_of(v: Val) -> Seq<(Seq<char>, Val)> {
    match v {
        Val::Dict(m) => m,
        Val::List(xs) => Seq::new(xs.len(), |i: int| (decimal(i as nat), xs[i])),
        _ => seq![(decimal(0), v)],
    }
}

/// The number of elements of an item: entries, list elements, else 1.
pub open spec fn len_of(v: Val) -> nat {
    match v {
        Val::Dict(m) => m.len(),
        Val::List(xs) => xs.len(),
        _ => 1,
    }
}

/// The iteration context of element `i` of `n`.
pub open spec fn iter_ctx(els: Seq<(Seq<char>, Val)>, i: int) -> IterV {
    IterV {
        first: i == 0,
        last: i == els.len() - 1,
        index: i as usize,
        key: els[i].0,
        value: els[i].1,
    }
}

pub proof fn lemma_elements_len(v: Val)
    ensures
        elements_of(v).len() == len_of(v),
{
}

/// Evaluates `body` once for each element of `els` from position `i` on.
pub open spec fn sem_iter(fuel: nat, span: Span, body: Seq<Tok>, els: Seq<(Seq<char>, Val)>, i: nat, e: Seq<ScopeV>)
    -> Result<(Seq<Tok>, Seq<ScopeV>), EvalError>
    decreases fuel, 2nat,
{
    if i >= els.len() {
        Ok((Seq::empty(), e))
    } else if fuel == 0 {
        Err(fail(span, Reason::StepLimit))
    } else {
        let f = (fuel - 1) as nat;
        match sem_scoped(f, body, e, Some(iter_ctx(els, i as int))) {
            Err(x) => Err(x),
            Ok((o, e1)) => match sem_iter(f, span, body, els, i + 1, e1) {
                Err(x) => Err(x),
                Ok((o2, e2)) => Ok((o + o2, e2)),
            },
        }
    }
}

/// Expands a quote introduced by a sigil at `span`.
pub open spec fn sem_quote(fuel: nat, span: Span, q: QuoteV, e: Seq<ScopeV>)
    -> Result<(Seq<Tok>, Seq<ScopeV>), EvalError>
    decreases fuel, 3nat,
{
    let sp = join(span, q.span());
    match q {
        QuoteV::Block(m, b) => if !block_emits(m, iter_of(e)) {
            Ok((Seq::empty(), e))
        } else if m is Concat {
            match sem_scoped(fuel, b.body, e, None) {
                Err(x) => Err(x),
                Ok((o, e1)) => if plain_word(concat_text_of(o)) {
                    match ident_of(concat_text_of(o)) {
                        Some(t) => Ok((seq![Tok::Ident(t, sp)], e1)),
                        None => Err(fail(b.span, Reason::NotAnIdentifier)),
                    }
                } else {
                    Err(fail(b.span, Reason::LexerDependent))
                },
            }
        } else {
            sem_scoped(fuel, b.body, e, None)
        },
        QuoteV::Iter(p, b) => match sem_item_path(p, e) {
            Err(x) => Err(x),
            Ok(v) => sem_iter(fuel, b.span, b.body, elements_of(v), 0, e),
        },
        QuoteV::Item(m, p) => match sem_item_path(p, e) {
            Err(x) => Err(x),
            Ok(v) => if m is Len {
                Ok((seq![Tok::Literal(decimal(len_of(v)), sp)], e))
            } else {
                match v {
                    Val::Ident(s, _) => Ok((seq![Tok::Ident(s, sp)], e)),
                    Val::Literal(s, _) => Ok((seq![Tok::Literal(s, sp)], e)),
                    Val::Stream(ts) => Ok((ts, e)),
                    Val::List(_) => Err(fail(sp, Reason::QuoteList)),
                    Val::Dict(_) => Err(fail(sp, Reason::QuoteMap)),
                }
            },
        },
    }
}

impl Quote {
    pub fn span(&self) -> (r: Span)
        ensures
            r == self@.span(),
    {
        match self {
            Quote::Block(_, b) => b.span,
            Quote::Iter(_, b) => b.span,
            Quote::Item(_, g) => g.span,
        }
    }
}

/// Evaluates `body` in a new scope that belongs to `iter_scope` if given,
/// appending the expansion to `output`.
pub fn parse_scoped_block(
    fuel: u64,
    body: Vec<Token>,
    output: &mut Vec<Token>,
    env: &mut Env,
    iter_scope: Option<IterScope>,
) -> (r: Result<(), EvalError>)
    requires
        old(env)@.len() > 0,
    ensures
        final(env)@ == old(env)@,
        tokens_view(old(output)@).is_prefix_of(tokens_view(final(output)@)),
        emitted(sem_scoped(fuel as nat, tokens_view(body@), old(env)@, iter_view(iter_scope)), r, old(output)@,
            final(output)@, final(env)@),
    decreases fuel, 1nat,
{
    env.push_scope(iter_scope);
    let ghost e1 = env@;
    let mut input = TokenIter::new(body);
    let r = parse_block(fuel, &mut input, output, env);
    env.pop_scope();
    assert(e1.drop_last() =~= old(env)@);
    r
}

/// The identifier token that a concatenation yields, from what the
/// identifier parser made of the concatenated text.
pub fn concat_ident_token(parsed: Option<Vec<char>>, span: Span, block_span: Span) -> (r: Result<Token, EvalError>)
    ensures
        match parsed {
            Some(t) => r matches Ok(tok) && tok@ == Tok::Ident(t@, span),
            None => r == Err::<Token, EvalError>(fail(block_span, Reason::NotAnIdentifier)),
        },
{
    match parsed {
        Some(t) => Ok(Token::Ident(t, span)),
        None => Err(EvalError { span: block_span, reason: Reason::NotAnIdentifier }),
    }
}

/// The number of elements of an item.
pub fn item_len(item: &Item) -> (r: usize)
    ensures
        r == len_of(item@),
{
    proof {
        match item {
            Item::List(xs) => lemma_items_view(xs@),
            Item::Dict(es) => lemma_entries_view(es@),
            _ => {},
        }
    }
    match item {
        Item::List(xs) => xs.len(),
        Item::Dict(es) => es.len(),
        _ => 1,
    }
}

/// Element `i` of an iteration over `item`, as its key and value.
fn element_at(item: &Rc<Item>, i: usize) -> (r: (Vec<char>, Rc<Item>))
    requires
        i < len_of((**item)@),
    ensures
        elements_of((**item)@).len() == len_of((**item)@),
        (r.0@, (*r.1)@) == elements_of((**item)@)[i as int],
{
    match &**item {
        Item::List(xs) => {
            proof {
                lemma_items_view(xs@);
            }
            (decimal_chars(i), share(&xs[i]))
        },
        Item::Dict(es) => {
            proof {
                lemma_entries_view(es@);
            }
            (copy_chars(&es[i].key), share(&es[i].value))
        },
        _ => (decimal_chars(0), share(item)),
    }
}

/// Expands a quote introduced by a sigil at `span`, appending to `output`.
pub fn parse_quote(fuel: u64, span: Span, quote: Quote, output: &mut Vec<Token>, env: &mut Env) -> (r: Result<(), EvalError>)
    requires
        old(env)@.len() > 0,
    ensures
        final(env)@ == old(env)@,
        tokens_view(old(output)@).is_prefix_of(tokens_view(final(output)@)),
        emitted(sem_quote(fuel as nat, span, quote@, old(env)@), r, old(output)@, final(output)@, final(env)@),
        quote@ is Item && r is Err ==> final(output)@ == old(output)@,
        match quote@ {
            QuoteV::Block(BlockModifier::Concat, b) => match r {
                Ok(_) => final(output)@.len() == old(output)@.len() + 1
                    && final(output)@.drop_last() == old(output)@
                    && final(output)@.last()@ is Ident
                    && final(output)@.last()@.span() == join(span, b.span),
                Err(_) => final(output)@ == old(output)@,
            },
            _ => true,
        },
    decreases fuel, 3nat,
{
    let ghost qv = quote@;
    let sp = span.join(quote.span());
    match quote {
        Quote::Block(m, blk) => {
            let emit = match env.get_iter_scope() {
                Some(sc) => match m {
                    BlockModifier::First => sc.first,
                    BlockModifier::Last => sc.last,
                    BlockModifier::NotFirst => !sc.first,
                    BlockModifier::NotLast => !sc.last,
                    BlockModifier::Concat => true,
                },
                None => !(m == BlockModifier::NotFirst || m == BlockModifier::NotLast),
            };
            if !emit {
                assert(tokens_view(output@) =~= tokens_view(old(output)@) + Seq::<Tok>::empty());
                return Ok(());
            }
            if m == BlockModifier::Concat {
                let mut collector: Vec<Token> = Vec::new();
                match parse_scoped_block(fuel, blk.body, &mut collector, env, None) {
                    Ok(_) => {},
                    Err(x) => {
                        return Err(x);
                    },
                }
                assert(tokens_view(Seq::<Token>::empty()) =~= Seq::<Tok>::empty());
                assert(Seq::<Tok>::empty() + tokens_view(collector@) =~= tokens_view(collector@));
                let text = concat_text(&collector);
                let parsed = parse_ident(&text);
                let t = match concat_ident_token(parsed, sp, blk.span) {
                    Ok(t) => t,
                    Err(x) => {
                        return Err(x);
                    },
                };
                let ghost ob = output@;
                let ghost tv = t@;
                output.push(t);
                assert(output@.drop_last() =~= ob);
                assert(output@ == ob.push(output@.last()));
                proof {
                    lemma_tokens_view_push(ob, output@.last());
                }
                Ok(())
            } else {
                parse_scoped_block(fuel, blk.body, output, env, None)
            }
        },
        Quote::Iter(pg, blk) => {
            let item = match parse_item_path(pg, env) {
                Ok(it) => it,
                Err(x) => {
                    return Err(x);
                },
            };
            let n = item_len(&item);
            let ghost els = elements_of((*item)@);
            let ghost goal = sem_quote(fuel as nat, span, qv, old(env)@);
            let ghost out0 = tokens_view(output@);
            let ghost bv = tokens_view(blk.body@);
            let ghost mut produced: Seq<Tok> = Seq::empty();
            let mut m: u64 = fuel;
            let mut i: usize = 0;
            proof {
                lemma_elements_len((*item)@);
                assert(out0 + produced =~= out0);
                match sem_iter(m as nat, blk.span, bv, els, 0, env@) {
                    Ok((o, e)) => {
                        assert(produced + o =~= o);
                    },
                    Err(_) => {},
                }
            }
            while i < n
                invariant
                    m <= fuel,
                    i <= n,
                    n == len_of((*item)@),
                    els == elements_of((*item)@),
                    els.len() == n,
                    bv == tokens_view(blk.body@),
                    env@ == old(env)@,
                    env@.len() > 0,
                    goal == sem_quote(fuel as nat, span, qv, old(env)@),
                    qv == quote@,
                    qv is Iter,
                    out0 == tokens_view(old(output)@),
                    tokens_view(output@) == out0 + produced,
                    lexer_dependent(goal) || goal == after(produced, sem_iter(m as nat, blk.span, bv, els, i as nat, env@)),
                decreases n - i,
            {
                if m == 0 {
                    return Err(EvalError { span: blk.span, reason: Reason::StepLimit });
                }
                m = m - 1;
                let body = copy_tokens(&blk.body);
                let (key, value) = element_at(&item, i);
                let ctx = IterScope { first: i == 0, last: i == n - 1, index: i, key, value };
                assert(iter_view(Some(ctx)) == Some(iter_ctx(els, i as int)));
                let ghost e0 = env@;
                let ghost o1 = tokens_view(output@);
                let rs = parse_scoped_block(m, body, output, env, Some(ctx));
                let ghost delta = tokens_view(output@).subrange(o1.len() as int, tokens_view(output@).len() as int);
                proof {
                    assert(tokens_view(output@) =~= o1 + delta);
                }
                match rs {
                    Ok(_) => {},
                    Err(x) => {
                        return Err(x);
                    },
                }
                proof {
                    match sem_scoped(m as nat, bv, e0, Some(iter_ctx(els, i as int))) {
                        Ok((o, e1)) => {
                            assert(o =~= delta);
                            lemma_after_after(produced, o, sem_iter(m as nat, blk.span, bv, els, (i + 1) as nat, env@));
                        },
                        Err(_) => {},
                    }
                    produced = produced + delta;
                }
                i = i + 1;
            }
            assert(produced + Seq::<Tok>::empty() =~= produced);
            Ok(())
        },
        Quote::Item(modifier, pg) => {
            let item = match parse_item_path(pg, env) {
                Ok(it) => it,
                Err(x) => {
                    return Err(x);
                },
            };
            if modifier == ItemModifier::Len {
                let n = item_len(&item);
                let t = Token::Literal(decimal_chars(n), sp);
                assert(t@ == Tok::Literal(decimal(len_of((*item)@)), sp));
                let ghost ob = output@;
                output.push(t);
                assert(output@ == ob.push(output@.last()));
                proof {
                    lemma_tokens_view_push(ob, output@.last());
                }
                assert(sem_quote(fuel as nat, span, qv, old(env)@) == Ok::<(Seq<Tok>, Seq<ScopeV>), EvalError>((seq![t@], env@)));
                return Ok(());
            }
            match &*item {
                Item::Ident(s, _) => {
                    let ghost ob = output@;
                    output.push(Token::Ident(copy_chars(s), sp));
                    assert(output@ == ob.push(output@.last()));
                    proof {
                        lemma_tokens_view_push(ob, output@.last());
                    }
                    Ok(())
                },
                Item::Literal(s, _) => {
                    let ghost ob = output@;
                    output.push(Token::Literal(copy_chars(s), sp));
                    assert(output@ == ob.push(output@.last()));
                    proof {
                        lemma_tokens_view_push(ob, output@.last());
                    }
                    Ok(())
                },
                Item::Stream(ts) => {
                    extend_copies(ts, output);
                    Ok(())
                },
                Item::List(_) => Err(EvalError { span: sp, reason: Reason::QuoteList }),
                Item::Dict(_) => Err(EvalError { span: sp, reason: Reason::QuoteMap }),
            }
        },
    }
}

} // verus!
