use vstd::prelude::*;
use std::rc::Rc;
use crate::token::{token_view, Delim, Group, GroupV, Span, Tok, Token, tokens_view};
use crate::cursor::TokenIter;
use crate::error::{EvalError, Reason, fail, lexer_dependent};
use crate::env::{Entry, Env, Item, ScopeV, Val, map_put, put_entry, item_view, items_view, entries_view,
    lemma_items_view, lemma_entries_view};
use crate::action::{Action, ActionV, parse_action, sem_action};
use crate::quotes::{parse_quote, parse_scoped_block, sem_quote, sem_scoped};
use crate::parse::{parse_item_path, sem_item_path};

verus! {

broadcast use crate::token::lemma_tokens_view;

/// The right-hand side of a binding, before it is evaluated.
pub enum Assign {
    Ident(Vec<char>, Span),
    Literal(Vec<char>, Span),
    /// A captured fragment, written `{ { ... } }`.
    Stream(Group),
    /// A reference, written `@( ... )`.
    Item(Group),
    List(Group),
    Dict(Group),
}

pub enum AssignV {
    Ident(Seq<char>, Span),
    Literal(Seq<char>, Span),
    Stream(GroupV),
    Item(GroupV),
    List(GroupV),
    Dict(GroupV),
}

impl View for Assign {
    type V = AssignV;

    open spec fn view(&self) -> AssignV {
        match self {
            Assign::Ident(s, sp) => AssignV::Ident(s@, *sp),
            Assign::Literal(s, sp) => AssignV::Literal(s@, *sp),
            Assign::Stream(g) => AssignV::Stream(g@),
            Assign::Item(g) => AssignV::Item(g@),
            Assign::List(g) => AssignV::List(g@),
            Assign::Dict(g) => AssignV::Dict(g@),
        }
    }
}

impl AssignV {
    pub open spec fn span(self) -> Span {
        match self {
            AssignV::Ident(_, s) => s,
            AssignV::Literal(_, s) => s,
            AssignV::Stream(g) => g.span,
            AssignV::Item(g) => g.span,
            AssignV::List(g) => g.span,
            AssignV::Dict(g) => g.span,
        }
    }
}

pub open spec fn is_punct(t: Tok, c: char) -> bool {
    t matches Tok::Punct(ch, _, _) && ch == c
}

/// Reads a value expression from the front of `c`; `span` locates what came
/// before. A directive in value position is expanded and the value is read
/// from its expansion.
pub open spec fn sem_assign_value(fuel: nat, span: Span, c: Seq<Tok>, e: Seq<ScopeV>)
    -> Result<(AssignV, Seq<Tok>, Seq<ScopeV>), EvalError>
    decreases fuel, 4nat,
{
    if fuel == 0 {
        Err(fail(span, Reason::StepLimit))
    } else if c.len() == 0 {
        Err(fail(span, Reason::UnexpectedEnd))
    } else {
        let f = (fuel - 1) as nat;
        let r = c.drop_first();
        match c[0] {
            Tok::Ident(s, sp) => Ok((AssignV::Ident(s, sp), r, e)),
            Tok::Literal(s, sp) => Ok((AssignV::Literal(s, sp), r, e)),
            Tok::Group(g) => if g.delim == Delim::Paren {
                Ok((AssignV::List(g), r, e))
            } else if g.delim == Delim::Brace {
                if g.body.len() == 1 && (g.body[0] matches Tok::Group(inner) && inner.delim == Delim::Brace) {
                    Ok((AssignV::Stream(g.body[0]->Group_0), r, e))
                } else {
                    Ok((AssignV::Dict(g), r, e))
                }
            } else {
                Err(fail(g.span, Reason::UnexpectedToken))
            },
            Tok::Punct(ch, _, s) => if ch == '@' {
                if r.len() == 0 {
                    Err(fail(s, Reason::UnexpectedEnd))
                } else if r[0] matches Tok::Group(g) && g.delim == Delim::Paren {
                    Ok((AssignV::Item(r[0]->Group_0), r.drop_first(), e))
                } else {
                    Err(fail(r[0].span(), Reason::UnexpectedToken))
                }
            } else if ch == '$' {
                match sem_action(s, r) {
                    Err(x) => Err(x),
                    Ok((ActionV::Quote(q), r2)) => match sem_quote(f, s, q, e) {
                        Err(x) => Err(x),
                        Ok((o, e1)) => sem_assign_value(f, s, o + r2, e1),
                    },
                    Ok((ActionV::Escape(p), _)) => Err(fail(p.span(), Reason::UnexpectedToken)),
                    Ok((ActionV::Assign(_, cs), r2)) => match sem_assign_value(f, cs, r2, e) {
                        Err(x) => Err(x),
                        Ok((a, _, _)) => Err(fail(crate::token::join(s, a.span()), Reason::UnexpectedAssignment)),
                    },
                }
            } else {
                Err(fail(s, Reason::UnexpectedToken))
            },
        }
    }
}

/// Evaluates a value expression to an item.
pub open spec fn sem_assign(fuel: nat, a: AssignV, e: Seq<ScopeV>) -> Result<(Val, Seq<ScopeV>), EvalError>
    decreases fuel, 5nat,
{
    match a {
        AssignV::Ident(s, sp) => Ok((Val::Ident(s, sp), e)),
        AssignV::Literal(s, sp) => Ok((Val::Literal(s, sp), e)),
        AssignV::Stream(g) => match sem_scoped(fuel, g.body, e, None) {
            Err(x) => Err(x),
            Ok((o, e1)) => Ok((Val::Stream(o), e1)),
        },
        AssignV::Item(g) => match sem_item_path(g, e) {
            Err(x) => Err(x),
            Ok(v) => Ok((v, e)),
        },
        AssignV::List(g) => match sem_scoped(fuel, g.body, e, None) {
            Err(x) => Err(x),
            Ok((o, e1)) => sem_list(fuel, g.span, o, e1, Seq::empty()),
        },
        AssignV::Dict(g) => match sem_scoped(fuel, g.body, e, None) {
            Err(x) => Err(x),
            Ok((o, e1)) => sem_dict(fuel, g.span, o, e1, Seq::empty()),
        },
    }
}

/// The elements of a list literal, read from its expansion `c` after the
/// elements `acc`: values separated by commas, with an optional final comma.
pub open spec fn sem_list(fuel: nat, span: Span, c: Seq<Tok>, e: Seq<ScopeV>, acc: Seq<Val>)
    -> Result<(Val, Seq<ScopeV>), EvalError>
    decreases fuel, 2nat,
{
    if c.len() == 0 {
        Ok((Val::List(acc), e))
    } else if fuel == 0 {
        Err(fail(span, Reason::StepLimit))
    } else {
        let f = (fuel - 1) as nat;
        match sem_assign_value(f, span, c, e) {
            Err(x) => Err(x),
            Ok((a, c1, e1)) => match sem_assign(f, a, e1) {
                Err(x) => Err(x),
                Ok((v, e2)) => if c1.len() == 0 {
                    Ok((Val::List(acc.push(v)), e2))
                } else if is_punct(c1[0], ',') {
                    sem_list(f, span, c1.drop_first(), e2, acc.push(v))
                } else {
                    Err(fail(c1[0].span(), Reason::UnexpectedToken))
                },
            },
        }
    }
}

/// The entries of a map literal, read from its expansion `c` after the
/// entries `acc`: `name: value` pairs separated by commas; a later entry
/// for a name overwrites an earlier one.
pub open spec fn sem_dict(fuel: nat, span: Span, c: Seq<Tok>, e: Seq<ScopeV>, acc: Seq<(Seq<char>, Val)>)
    -> Result<(Val, Seq<ScopeV>), EvalError>
    decreases fuel, 2nat,
{
    if c.len() == 0 {
        Ok((Val::Dict(acc), e))
    } else if fuel == 0 {
        Err(fail(span, Reason::StepLimit))
    } else {
        let f = (fuel - 1) as nat;
        let r = c.drop_first();
        match c[0] {
            Tok::Ident(k, ks) => if r.len() == 0 {
                Err(fail(ks, Reason::UnexpectedEnd))
            } else if !is_punct(r[0], ':') {
                Err(fail(r[0].span(), Reason::UnexpectedToken))
            } else {
                match sem_assign_value(f, span, r.drop_first(), e) {
                    Err(x) => Err(x),
                    Ok((a, c1, e1)) => match sem_assign(f, a, e1) {
                        Err(x) => Err(x),
                        Ok((v, e2)) => if c1.len() == 0 {
                            Ok((Val::Dict(map_put(acc, k, v)), e2))
                        } else if is_punct(c1[0], ',') {
                            sem_dict(f, span, c1.drop_first(), e2, map_put(acc, k, v))
                        } else {
                            Err(fail(c1[0].span(), Reason::UnexpectedToken))
                        },
                    },
                }
            },
            t => Err(fail(t.span(), Reason::UnexpectedToken)),
        }
    }
}

impl Assign {
    pub fn span(&self) -> (r: Span)
        ensures
            r == self@.span(),
    {
        match self {
            Assign::Ident(_, s) => *s,
            Assign::Literal(_, s) => *s,
            Assign::Stream(g) => g.span,
            Assign::Item(g) => g.span,
            Assign::List(g) => g.span,
            Assign::Dict(g) => g.span,
        }
    }
}

/// Reads a value expression from `input`; `span` locates what came before.
pub fn parse_assign_value(fuel: u64, span: Span, input: &mut TokenIter, env: &mut Env) -> (r: Result<Assign, EvalError>)
    requires
        old(env)@.len() > 0,
    ensures
        final(env)@ == old(env)@,
        lexer_dependent(sem_assign_value(fuel as nat, span, old(input)@, old(env)@)) || match r {
            Ok(a) => sem_assign_value(fuel as nat, span, old(input)@, old(env)@)
                == Ok::<(AssignV, Seq<Tok>, Seq<ScopeV>), EvalError>((a@, final(input)@, final(env)@)),
            Err(x) => sem_assign_value(fuel as nat, span, old(input)@, old(env)@)
                == Err::<(AssignV, Seq<Tok>, Seq<ScopeV>), EvalError>(x),
        },
    decreases fuel, 4nat,
{
    if fuel == 0 {
        return Err(EvalError { span, reason: Reason::StepLimit });
    }
    let f: u64 = fuel - 1;
    let token = match input.next() {
        None => {
            return Err(EvalError { span, reason: Reason::UnexpectedEnd });
        },
        Some(t) => t,
    };
    match token {
        Token::Ident(s, sp) => Ok(Assign::Ident(s, sp)),
        Token::Literal(s, sp) => Ok(Assign::Literal(s, sp)),
        Token::Group(g) => {
            if g.delim == Delim::Paren {
                Ok(Assign::List(g))
            } else if g.delim == Delim::Brace {
                let lone_brace = g.body.len() == 1 && match &g.body[0] {
                    Token::Group(inner) => inner.delim == Delim::Brace,
                    _ => false,
                };
                assert(tokens_view(g.body@).len() == g.body@.len());
                if g.body.len() > 0 {
                    assert(tokens_view(g.body@)[0] == token_view(g.body@[0]));
                }
                if lone_brace {
                    let mut body = g.body;
                    match body.pop() {
                        Some(Token::Group(inner)) => Ok(Assign::Stream(inner)),
                        _ => Err(EvalError { span, reason: Reason::UnexpectedToken }),
                    }
                } else {
                    Ok(Assign::Dict(g))
                }
            } else {
                Err(EvalError { span: g.span, reason: Reason::UnexpectedToken })
            }
        },
        Token::Punct(ch, _, s) => {
            if ch == '@' {
                match input.next() {
                    None => Err(EvalError { span: s, reason: Reason::UnexpectedEnd }),
                    Some(Token::Group(g)) => {
                        if g.delim == Delim::Paren {
                            Ok(Assign::Item(g))
                        } else {
                            Err(EvalError { span: g.span, reason: Reason::UnexpectedToken })
                        }
                    },
                    Some(t) => Err(EvalError { span: t.span(), reason: Reason::UnexpectedToken }),
                }
            } else if ch == '$' {
                let action = match parse_action(f, s, input, env) {
                    Ok(a) => a,
                    Err(x) => {
                        return Err(x);
                    },
                };
                match action {
                    Action::Quote(q) => {
                        let mut collector: Vec<Token> = Vec::new();
                        match parse_quote(f, s, q, &mut collector, env) {
                            Ok(_) => {},
                            Err(x) => {
                                return Err(x);
                            },
                        }
                        assert(tokens_view(Seq::<Token>::empty()) =~= Seq::<Tok>::empty());
                        assert(Seq::<Tok>::empty() + tokens_view(collector@) =~= tokens_view(collector@));
                        input.push_in_front(collector);
                        parse_assign_value(f, s, input, env)
                    },
                    Action::Escape(p) => Err(EvalError { span: p.span(), reason: Reason::UnexpectedToken }),
                    Action::Assign(_, a) => Err(EvalError { span: s.join(a.span()), reason: Reason::UnexpectedAssignment }),
                }
            } else {
                Err(EvalError { span: s, reason: Reason::UnexpectedToken })
            }
        },
    }
}

/// Evaluates `body` in a new scope and returns the expansion.
pub fn evaluate_scoped_block(fuel: u64, body: Vec<Token>, env: &mut Env) -> (r: Result<Vec<Token>, EvalError>)
    requires
        old(env)@.len() > 0,
    ensures
        final(env)@ == old(env)@,
        lexer_dependent(sem_scoped(fuel as nat, tokens_view(body@), old(env)@, None)) || match r {
            Ok(o) => sem_scoped(fuel as nat, tokens_view(body@), old(env)@, None)
                == Ok::<(Seq<Tok>, Seq<ScopeV>), EvalError>((tokens_view(o@), final(env)@)),
            Err(x) => sem_scoped(fuel as nat, tokens_view(body@), old(env)@, None)
                == Err::<(Seq<Tok>, Seq<ScopeV>), EvalError>(x),
        },
    decreases fuel, 2nat,
{
    let mut output: Vec<Token> = Vec::new();
    let r = parse_scoped_block(fuel, body, &mut output, env, None);
    assert(tokens_view(Seq::<Token>::empty()) =~= Seq::<Tok>::empty());
    assert(Seq::<Tok>::empty() + tokens_view(output@) =~= tokens_view(output@));
    match r {
        Ok(_) => Ok(output),
        Err(x) => Err(x),
    }
}

/// Evaluates a value expression to an item.
pub fn parse_assign(fuel: u64, assign: Assign, env: &mut Env) -> (r: Result<Rc<Item>, EvalError>)
    requires
        old(env)@.len() > 0,
    ensures
        final(env)@ == old(env)@,
        lexer_dependent(sem_assign(fuel as nat, assign@, old(env)@)) || match r {
            Ok(it) => sem_assign(fuel as nat, assign@, old(env)@) == Ok::<(Val, Seq<ScopeV>), EvalError>((it@, final(env)@)),
            Err(x) => sem_assign(fuel as nat, assign@, old(env)@) == Err::<(Val, Seq<ScopeV>), EvalError>(x),
        },
    decreases fuel, 5nat,
{
    let ghost av = assign@;
    match assign {
        Assign::Ident(s, sp) => Ok(Rc::new(Item::Ident(s, sp))),
        Assign::Literal(s, sp) => Ok(Rc::new(Item::Literal(s, sp))),
        Assign::Stream(g) => {
            let o = match evaluate_scoped_block(fuel, g.body, env) {
                Ok(o) => o,
                Err(x) => {
                    return Err(x);
                },
            };
            Ok(Rc::new(Item::Stream(o)))
        },
        Assign::Item(g) => parse_item_path(g, env),
        Assign::List(g) => {
            let gspan = g.span;
            let o = match evaluate_scoped_block(fuel, g.body, env) {
                Ok(o) => o,
                Err(x) => {
                    return Err(x);
                },
            };
            let ghost goal = sem_assign(fuel as nat, av, old(env)@);
            let mut tokens = TokenIter::new(o);
            let mut list: Vec<Rc<Item>> = Vec::new();
            let mut m: u64 = fuel;
            proof {
                lemma_items_view(list@);
                assert(items_view(list@) =~= Seq::<Val>::empty());
            }
            loop
                invariant
                    m <= fuel,
                    env@ == old(env)@,
                    env@.len() > 0,
                    goal == sem_assign(fuel as nat, av, old(env)@),
                    av == assign@,
                    lexer_dependent(goal) || goal == sem_list(m as nat, gspan, tokens@, env@, items_view(list@)),
                decreases m,
            {
                if tokens.is_empty() {
                    return Ok(Rc::new(Item::List(list)));
                }
                if m == 0 {
                    return Err(EvalError { span: gspan, reason: Reason::StepLimit });
                }
                m = m - 1;
                let a = match parse_assign_value(m, gspan, &mut tokens, env) {
                    Ok(a) => a,
                    Err(x) => {
                        return Err(x);
                    },
                };
                let item = match parse_assign(m, a, env) {
                    Ok(it) => it,
                    Err(x) => {
                        return Err(x);
                    },
                };
                let ghost before = list@;
                list.push(item);
                proof {
                    assert(list@.drop_last() =~= before);
                    assert(items_view(list@) == items_view(before).push(item_view(*item)));
                }
                match tokens.next() {
                    None => {
                        return Ok(Rc::new(Item::List(list)));
                    },
                    Some(Token::Punct(ch, _, ps)) => {
                        if ch != ',' {
                            return Err(EvalError { span: ps, reason: Reason::UnexpectedToken });
                        }
                    },
                    Some(t) => {
                        return Err(EvalError { span: t.span(), reason: Reason::UnexpectedToken });
                    },
                }
            }
        },
        Assign::Dict(g) => {
            let gspan = g.span;
            let o = match evaluate_scoped_block(fuel, g.body, env) {
                Ok(o) => o,
                Err(x) => {
                    return Err(x);
                },
            };
            let ghost goal = sem_assign(fuel as nat, av, old(env)@);
            let mut tokens = TokenIter::new(o);
            let mut entries: Vec<Entry> = Vec::new();
            let mut m: u64 = fuel;
            proof {
                lemma_entries_view(entries@);
                assert(entries_view(entries@) =~= Seq::<(Seq<char>, Val)>::empty());
            }
            loop
                invariant
                    m <= fuel,
                    env@ == old(env)@,
                    env@.len() > 0,
                    goal == sem_assign(fuel as nat, av, old(env)@),
                    av == assign@,
                    lexer_dependent(goal) || goal == sem_dict(m as nat, gspan, tokens@, env@, entries_view(entries@)),
                decreases m,
            {
                let first = match tokens.next() {
                    None => {
                        return Ok(Rc::new(Item::Dict(entries)));
                    },
                    Some(t) => t,
                };
                if m == 0 {
                    return Err(EvalError { span: gspan, reason: Reason::StepLimit });
                }
                m = m - 1;
                let (key, ks) = match first {
                    Token::Ident(k, ks) => (k, ks),
                    t => {
                        return Err(EvalError { span: t.span(), reason: Reason::UnexpectedToken });
                    },
                };
                match tokens.next() {
                    None => {
                        return Err(EvalError { span: ks, reason: Reason::UnexpectedEnd });
                    },
                    Some(Token::Punct(ch, _, ps)) => {
                        if ch != ':' {
                            return Err(EvalError { span: ps, reason: Reason::UnexpectedToken });
                        }
                    },
                    Some(t) => {
                        return Err(EvalError { span: t.span(), reason: Reason::UnexpectedToken });
                    },
                }
                let a = match parse_assign_value(m, gspan, &mut tokens, env) {
                    Ok(a) => a,
                    Err(x) => {
                        return Err(x);
                    },
                };
                let item = match parse_assign(m, a, env) {
                    Ok(it) => it,
                    Err(x) => {
                        return Err(x);
                    },
                };
                put_entry(&mut entries, key, item);
                match tokens.next() {
                    None => {
                        return Ok(Rc::new(Item::Dict(entries)));
                    },
                    Some(Token::Punct(ch, _, ps)) => {
                        if ch != ',' {
                            return Err(EvalError { span: ps, reason: Reason::UnexpectedToken });
                        }
                    },
                    Some(t) => {
                        return Err(EvalError { span: t.span(), reason: Reason::UnexpectedToken });
                    },
                }
            }
        },
    }
}

} // verus!
