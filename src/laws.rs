use vstd::prelude::*;
use crate::token::{GroupV, Span, Tok, join};
use crate::error::{ErrorKind, EvalError, Reason, fail, kind_of};
use crate::env::{IterV, KeyV, ScopeV, SegV, Val, index_item, iter_of, keys_unique, lemma_map_put_unique, map_get, map_put,
    push_scope, set_item};
use crate::parse::{FUEL, sem_block, sem_evaluate, sem_item_path, word_index};
use crate::action::{ActionV, sem_action};
use crate::assign::{AssignV, is_punct, sem_assign, sem_assign_value, sem_dict, sem_list};
use crate::quotes::{BlockModifier, block_emits, ItemModifier, QuoteV, elements_of, iter_ctx, sem_iter, sem_quote, sem_scoped};

verus! {

/// Whether no sigil occurs in the token, nested groups included.
pub open spec fn tok_plain(t: Tok) -> bool
    decreases t, 1nat,
{
    match t {
        Tok::Punct(c, _, _) => c != '$',
        Tok::Group(g) => toks_plain(g.body),
        _ => true,
    }
}

pub open spec fn toks_plain(s: Seq<Tok>) -> bool
    decreases s, 0nat,
{
    s.len() == 0 || (tok_plain(s[0]) && toks_plain(s.subrange(1, s.len() as int)))
}

/// The number of tokens, those inside groups included.
pub open spec fn tok_size(t: Tok) -> nat
    decreases t, 1nat,
{
    match t {
        Tok::Group(g) => 1 + toks_size(g.body),
        _ => 1,
    }
}

pub open spec fn toks_size(s: Seq<Tok>) -> nat
    decreases s, 0nat,
{
    if s.len() == 0 {
        0
    } else {
        tok_size(s[0]) + toks_size(s.subrange(1, s.len() as int))
    }
}

/// The block driver copies a sigil-free sequence unchanged and leaves the
/// environment as it found it, given more steps than tokens.
pub proof fn lemma_plain_block(fuel: nat, c: Seq<Tok>, e: Seq<ScopeV>)
    requires
        toks_plain(c),
        toks_size(c) < fuel,
    ensures
        sem_block(fuel, c, e) == Ok::<(Seq<Tok>, Seq<ScopeV>), crate::error::EvalError>((c, e)),
    decreases fuel,
{
    if c.len() > 0 {
        let f = (fuel - 1) as nat;
        let r = c.drop_first();
        assert(r == c.subrange(1, c.len() as int));
        assert(toks_size(c) == tok_size(c[0]) + toks_size(r));
        assert(toks_plain(r) && tok_plain(c[0]));
        lemma_plain_block(f, r, e);
        match c[0] {
            Tok::Group(g) => {
                assert(tok_size(c[0]) == 1 + toks_size(g.body));
                assert(toks_plain(g.body));
                lemma_plain_block(f, g.body, e);
                assert(seq![Tok::Group(g)] + r =~= c);
            },
            _ => {
                assert(seq![c[0]] + r =~= c);
            },
        }
    } else {
        assert(Seq::<Tok>::empty() =~= c);
    }
}

/// An input in which the sigil does not occur evaluates to itself, token
/// for token (for any input of fewer tokens than the step budget).
pub proof fn law_plain_tokens_unchanged(input: Seq<Tok>)
    requires
        toks_plain(input),
        toks_size(input) < FUEL,
    ensures
        sem_evaluate(input) == Ok::<Seq<Tok>, crate::error::EvalError>(input),
{
    lemma_plain_block(FUEL as nat, input, push_scope(Seq::empty(), None));
}

/// A doubled sigil evaluates to one sigil: the second one.
pub proof fn law_escape(a: Span, b: Span, ja: bool, jb: bool)
    ensures
        sem_evaluate(seq![Tok::Punct('$', ja, a), Tok::Punct('$', jb, b)])
            == Ok::<Seq<Tok>, crate::error::EvalError>(seq![Tok::Punct('$', jb, b)]),
{
    let c = seq![Tok::Punct('$', ja, a), Tok::Punct('$', jb, b)];
    let e = push_scope(Seq::empty(), None);
    let r = c.drop_first();
    assert(r =~= seq![Tok::Punct('$', jb, b)]);
    assert(r.drop_first() =~= Seq::<Tok>::empty());
    assert(sem_action(a, r) == Ok::<(ActionV, Seq<Tok>), crate::error::EvalError>((ActionV::Escape(Tok::Punct('$', jb, b)), Seq::<Tok>::empty())));
    assert(sem_block((FUEL - 1) as nat, Seq::<Tok>::empty(), e) == Ok::<(Seq<Tok>, Seq<ScopeV>), crate::error::EvalError>((Seq::<Tok>::empty(), e)));
    assert(seq![Tok::Punct('$', jb, b)] + Seq::<Tok>::empty() =~= seq![Tok::Punct('$', jb, b)]);
}

pub open spec fn env_kept<T>(res: Result<(T, Seq<ScopeV>), EvalError>, e: Seq<ScopeV>) -> bool {
    match res {
        Ok((_, e2)) => e2 == e,
        Err(_) => true,
    }
}

proof fn lemma_block_env(fuel: nat, c: Seq<Tok>, e: Seq<ScopeV>)
    requires
        e.len() > 0,
    ensures
        match sem_block(fuel, c, e) {
            Ok((_, e2)) => e2.len() == e.len() && e2.drop_last() == e.drop_last(),
            Err(_) => true,
        },
    decreases fuel, 0nat,
{
    if c.len() > 0 && fuel > 0 {
        let f = (fuel - 1) as nat;
        let r = c.drop_first();
        match c[0] {
            Tok::Punct(ch, _, s) => {
                if ch == '$' {
                    match sem_action(s, r) {
                        Ok((ActionV::Escape(_), r2)) => {
                            lemma_block_env(f, r2, e);
                        },
                        Ok((ActionV::Assign(name, cs), r2)) => {
                            lemma_assign_value_env(f, cs, r2, e);
                            match sem_assign_value(f, cs, r2, e) {
                                Ok((a, r3, e1)) => {
                                    lemma_assign_env(f, a, e1);
                                    match sem_assign(f, a, e1) {
                                        Ok((v, e2)) => {
                                            let e3 = set_item(e2, name, v);
                                            assert(e3.drop_last() =~= e.drop_last());
                                            lemma_block_env(f, r3, e3);
                                        },
                                        Err(_) => {},
                                    }
                                },
                                Err(_) => {},
                            }
                        },
                        Ok((ActionV::Quote(q), r2)) => {
                            lemma_quote_env(f, s, q, e);
                            match sem_quote(f, s, q, e) {
                                Ok((_, e1)) => {
                                    lemma_block_env(f, r2, e1);
                                },
                                Err(_) => {},
                            }
                        },
                        Err(_) => {},
                    }
                } else {
                    lemma_block_env(f, r, e);
                }
            },
            Tok::Group(g) => {
                lemma_block_env(f, g.body, e);
                match sem_block(f, g.body, e) {
                    Ok((_, e1)) => {
                        lemma_block_env(f, r, e1);
                    },
                    Err(_) => {},
                }
            },
            _ => {
                lemma_block_env(f, r, e);
            },
        }
    }
}

proof fn lemma_scoped_env(fuel: nat, body: Seq<Tok>, e: Seq<ScopeV>, it: Option<IterV>)
    ensures
        env_kept(sem_scoped(fuel, body, e, it), e),
    decreases fuel, 1nat,
{
    lemma_block_env(fuel, body, push_scope(e, it));
    assert(push_scope(e, it).drop_last() =~= e);
}

proof fn lemma_iter_env(fuel: nat, span: Span, body: Seq<Tok>, els: Seq<(Seq<char>, Val)>, i: nat, e: Seq<ScopeV>)
    ensures
        env_kept(sem_iter(fuel, span, body, els, i, e), e),
    decreases fuel, 2nat,
{
    if i < els.len() && fuel > 0 {
        let f = (fuel - 1) as nat;
        lemma_scoped_env(f, body, e, Some(iter_ctx(els, i as int)));
        match sem_scoped(f, body, e, Some(iter_ctx(els, i as int))) {
            Ok((_, e1)) => {
                lemma_iter_env(f, span, body, els, i + 1, e1);
            },
            Err(_) => {},
        }
    }
}

proof fn lemma_quote_env(fuel: nat, span: Span, q: QuoteV, e: Seq<ScopeV>)
    ensures
        env_kept(sem_quote(fuel, span, q, e), e),
    decreases fuel, 3nat,
{
    match q {
        QuoteV::Block(m, b) => {
            lemma_scoped_env(fuel, b.body, e, None);
        },
        QuoteV::Iter(p, b) => {
            match sem_item_path(p, e) {
                Ok(v) => {
                    lemma_iter_env(fuel, b.span, b.body, elements_of(v), 0, e);
                },
                Err(_) => {},
            }
        },
        QuoteV::Item(_, _) => {},
    }
}

proof fn lemma_assign_value_env(fuel: nat, span: Span, c: Seq<Tok>, e: Seq<ScopeV>)
    ensures
        match sem_assign_value(fuel, span, c, e) {
            Ok((_, _, e2)) => e2 == e,
            Err(_) => true,
        },
    decreases fuel, 4nat,
{
    if fuel > 0 && c.len() > 0 {
        let f = (fuel - 1) as nat;
        let r = c.drop_first();
        match c[0] {
            Tok::Punct(ch, _, s) => {
                if ch == '$' {
                    match sem_action(s, r) {
                        Ok((ActionV::Quote(q), r2)) => {
                            lemma_quote_env(f, s, q, e);
                            match sem_quote(f, s, q, e) {
                                Ok((o, e1)) => {
                                    lemma_assign_value_env(f, s, o + r2, e1);
                                },
                                Err(_) => {},
                            }
                        },
                        _ => {},
                    }
                }
            },
            _ => {},
        }
    }
}

proof fn lemma_assign_env(fuel: nat, a: AssignV, e: Seq<ScopeV>)
    ensures
        env_kept(sem_assign(fuel, a, e), e),
    decreases fuel, 5nat,
{
    match a {
        AssignV::Stream(g) => {
            lemma_scoped_env(fuel, g.body, e, None);
        },
        AssignV::List(g) => {
            lemma_scoped_env(fuel, g.body, e, None);
            match sem_scoped(fuel, g.body, e, None) {
                Ok((o, e1)) => {
                    lemma_list_env(fuel, g.span, o, e1, Seq::empty());
                },
                Err(_) => {},
            }
        },
        AssignV::Dict(g) => {
            lemma_scoped_env(fuel, g.body, e, None);
            match sem_scoped(fuel, g.body, e, None) {
                Ok((o, e1)) => {
                    lemma_dict_env(fuel, g.span, o, e1, Seq::empty());
                },
                Err(_) => {},
            }
        },
        _ => {},
    }
}

proof fn lemma_list_env(fuel: nat, span: Span, c: Seq<Tok>, e: Seq<ScopeV>, acc: Seq<Val>)
    ensures
        env_kept(sem_list(fuel, span, c, e, acc), e),
    decreases fuel, 2nat,
{
    if c.len() > 0 && fuel > 0 {
        let f = (fuel - 1) as nat;
        lemma_assign_value_env(f, span, c, e);
        match sem_assign_value(f, span, c, e) {
            Ok((a, c1, e1)) => {
                lemma_assign_env(f, a, e1);
                match sem_assign(f, a, e1) {
                    Ok((v, e2)) => {
                        if c1.len() > 0 && is_punct(c1[0], ',') {
                            lemma_list_env(f, span, c1.drop_first(), e2, acc.push(v));
                        }
                    },
                    Err(_) => {},
                }
            },
            Err(_) => {},
        }
    }
}

proof fn lemma_dict_env(fuel: nat, span: Span, c: Seq<Tok>, e: Seq<ScopeV>, acc: Seq<(Seq<char>, Val)>)
    ensures
        env_kept(sem_dict(fuel, span, c, e, acc), e),
    decreases fuel, 2nat,
{
    if c.len() > 0 && fuel > 0 {
        let f = (fuel - 1) as nat;
        let r = c.drop_first();
        match c[0] {
            Tok::Ident(k, _) => {
                if r.len() > 0 && is_punct(r[0], ':') {
                    lemma_assign_value_env(f, span, r.drop_first(), e);
                    match sem_assign_value(f, span, r.drop_first(), e) {
                        Ok((a, c1, e1)) => {
                            lemma_assign_env(f, a, e1);
                            match sem_assign(f, a, e1) {
                                Ok((v, e2)) => {
                                    if c1.len() > 0 && is_punct(c1[0], ',') {
                                        lemma_dict_env(f, span, c1.drop_first(), e2, crate::env::map_put(acc, k, v));
                                    }
                                },
                                Err(_) => {},
                            }
                        },
                        Err(_) => {},
                    }
                }
            },
            _ => {},
        }
    }
}

/// Every quote runs its body in scopes of its own: whatever the body binds,
/// the environment after the quote is the one before it, so a name bound
/// outside keeps its value once the block closes.
pub proof fn law_quote_keeps_env(fuel: nat, span: Span, q: QuoteV, e: Seq<ScopeV>)
    ensures
        match sem_quote(fuel, span, q, e) {
            Ok((_, e2)) => e2 == e,
            Err(_) => true,
        },
{
    lemma_quote_env(fuel, span, q, e);
}

/// Following a map key that the map does not hold fails with a not-found
/// error at that key.
pub proof fn law_absent_key_not_found(m: Seq<(Seq<char>, Val)>, k: Seq<char>, span: Span, key_span: Span)
    requires
        map_get(m, k) is None,
    ensures
        index_item(Val::Dict(m), span, seq![SegV { span: key_span, key: KeyV::Name(k) }])
            == Err::<Val, EvalError>(fail(key_span, Reason::ItemNotFound)),
        kind_of(Reason::ItemNotFound) == ErrorKind::NotFound,
{
}

/// Indexing a list with a name, or a map with a position, is a type error
/// at that step.
pub proof fn law_index_type_mismatch(v: Val, span: Span, path: Seq<SegV>)
    requires
        path.len() > 0,
    ensures
        v is List && path[0].key is Name ==> index_item(v, span, path)
            == Err::<Val, EvalError>(fail(path[0].span, Reason::ListByIdent)),
        v is Dict && path[0].key is Index ==> index_item(v, span, path)
            == Err::<Val, EvalError>(fail(path[0].span, Reason::MapByInteger)),
        kind_of(Reason::ListByIdent) == ErrorKind::Type,
        kind_of(Reason::MapByInteger) == ErrorKind::Type,
{
}

/// Quoting a reference to a list or a map is a type error: collections have
/// no tokens of their own.
pub proof fn law_quote_collection_fails(fuel: nat, span: Span, g: GroupV, e: Seq<ScopeV>)
    ensures
        match sem_item_path(g, e) {
            Ok(Val::List(_)) => sem_quote(fuel, span, QuoteV::Item(ItemModifier::Plain, g), e)
                == Err::<(Seq<Tok>, Seq<ScopeV>), EvalError>(fail(join(span, g.span), Reason::QuoteList)),
            Ok(Val::Dict(_)) => sem_quote(fuel, span, QuoteV::Item(ItemModifier::Plain, g), e)
                == Err::<(Seq<Tok>, Seq<ScopeV>), EvalError>(fail(join(span, g.span), Reason::QuoteMap)),
            _ => true,
        },
        kind_of(Reason::QuoteList) == ErrorKind::Type,
        kind_of(Reason::QuoteMap) == ErrorKind::Type,
{
}

/// `@index` outside every iteration is a scope error at `@index`.
pub proof fn law_index_outside_iteration(g: GroupV, e: Seq<ScopeV>, at: Span, joint: bool, id_span: Span)
    requires
        g.body == seq![Tok::Punct('@', joint, at), Tok::Ident(word_index(), id_span)],
        iter_of(e) is None,
    ensures
        sem_item_path(g, e) == Err::<Val, EvalError>(fail(join(at, id_span), Reason::IndexOutsideIter)),
        kind_of(Reason::IndexOutsideIter) == ErrorKind::Scope,
{
    let r = g.body.drop_first();
    assert(r =~= seq![Tok::Ident(word_index(), id_span)]);
}

/// A map literal binds each key at most once: a repeated key overwrites the
/// earlier entry.
pub proof fn law_map_literal_keys_unique(fuel: nat, span: Span, c: Seq<Tok>, e: Seq<ScopeV>, acc: Seq<(Seq<char>, Val)>)
    requires
        keys_unique(acc),
    ensures
        match sem_dict(fuel, span, c, e, acc) {
            Ok((Val::Dict(m), _)) => keys_unique(m),
            _ => true,
        },
    decreases fuel,
{
    if c.len() > 0 && fuel > 0 {
        let f = (fuel - 1) as nat;
        let r = c.drop_first();
        match c[0] {
            Tok::Ident(k, _) => {
                if r.len() > 0 && is_punct(r[0], ':') {
                    match sem_assign_value(f, span, r.drop_first(), e) {
                        Ok((a, c1, e1)) => {
                            match sem_assign(f, a, e1) {
                                Ok((v, e2)) => {
                                    lemma_map_put_unique(acc, k, v);
                                    if c1.len() > 0 && is_punct(c1[0], ',') {
                                        law_map_literal_keys_unique(f, span, c1.drop_first(), e2, map_put(acc, k, v));
                                    }
                                },
                                Err(_) => {},
                            }
                        },
                        Err(_) => {},
                    }
                }
            },
            _ => {},
        }
    }
}

/// Binding a name keeps the names of every scope unique.
pub proof fn law_scope_names_unique(e: Seq<ScopeV>, k: Seq<char>, v: Val)
    requires
        e.len() > 0,
        forall|i: int| 0 <= i < e.len() ==> keys_unique(#[trigger] e[i].items),
    ensures
        forall|i: int| 0 <= i < e.len() ==> keys_unique(#[trigger] set_item(e, k, v)[i].items),
{
    lemma_map_put_unique(e.last().items, k, v);
    assert forall|i: int| 0 <= i < e.len() implies keys_unique(#[trigger] set_item(e, k, v)[i].items) by {
        if i == e.len() - 1 {
            assert(set_item(e, k, v)[i].items == map_put(e.last().items, k, v));
        } else {
            assert(set_item(e, k, v)[i] == e[i]);
        }
    }
}

/// In an iteration over `els`, the body for element `i` runs where `first`
/// holds exactly for the first element and `last` exactly for the last one,
/// so a `first` block is emitted only there and a `last` block only there.
pub proof fn law_iteration_flags(els: Seq<(Seq<char>, Val)>, i: int)
    requires
        0 <= i < els.len(),
    ensures
        block_emits(BlockModifier::First, Some(iter_ctx(els, i))) == (i == 0),
        block_emits(BlockModifier::Last, Some(iter_ctx(els, i))) == (i == els.len() - 1),
        block_emits(BlockModifier::NotFirst, Some(iter_ctx(els, i))) == (i != 0),
        block_emits(BlockModifier::NotLast, Some(iter_ctx(els, i))) == (i != els.len() - 1),
{
}

} // verus!
