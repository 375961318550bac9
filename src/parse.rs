use vstd::prelude::*;
use std::rc::Rc;
use crate::token::{lemma_prefix_trans, lemma_tokens_view_push, Group, GroupV, Span, Tok, Token, join, tokens_view};
use crate::cursor::TokenIter;
use crate::env::{Env, Item, Key, KeyV, ScopeV, SegV, Segment, Val, index_item, iter_of, push_scope, resolve,
    segs_view, set_item, share};
use crate::text::{decimal, decimal_chars, index_of_text, parse_index, text_is};
use crate::error::{EvalError, Reason, fail, lexer_dependent};
use crate::action::{Action, ActionV, parse_action, sem_action};
use crate::assign::{parse_assign, sem_assign, sem_assign_value};
use crate::quotes::{parse_quote, sem_quote};

verus! {

broadcast use crate::token::lemma_tokens_view;

/// The number of evaluation steps that one evaluation may take.
pub const FUEL: u64 = 0xffff_ffff_ffff_ffff;

/// `res` with `prefix` written before its output.
pub open spec fn after(prefix: Seq<Tok>, res: Result<(Seq<Tok>, Seq<ScopeV>), EvalError>)
    -> Result<(Seq<Tok>, Seq<ScopeV>), EvalError>
{
    match res {
        Ok((o, e)) => Ok((prefix + o, e)),
        Err(x) => Err(x),
    }
}

/// The block driver: ordinary tokens are copied, groups are evaluated
/// inside, and each directive is read and carried out.
pub open spec fn sem_block(fuel: nat, c: Seq<Tok>, e: Seq<ScopeV>) -> Result<(Seq<Tok>, Seq<ScopeV>), EvalError>
    decreases fuel, 0nat,
{
    if c.len() == 0 {
        Ok((Seq::empty(), e))
    } else if fuel == 0 {
        Err(fail(c[0].span(), Reason::StepLimit))
    } else {
        let f = (fuel - 1) as nat;
        let r = c.drop_first();
        match c[0] {
            Tok::Punct(ch, _, s) => if ch == '$' {
                match sem_action(s, r) {
                    Err(x) => Err(x),
                    Ok((ActionV::Escape(p), r2)) => after(seq![p], sem_block(f, r2, e)),
                    Ok((ActionV::Assign(name, cs), r2)) => match sem_assign_value(f, cs, r2, e) {
                        Err(x) => Err(x),
                        Ok((a, r3, e1)) => match sem_assign(f, a, e1) {
                            Err(x) => Err(x),
                            Ok((v, e2)) => sem_block(f, r3, set_item(e2, name, v)),
                        },
                    },
                    Ok((ActionV::Quote(q), r2)) => match sem_quote(f, s, q, e) {
                        Err(x) => Err(x),
                        Ok((o, e1)) => after(o, sem_block(f, r2, e1)),
                    },
                }
            } else {
                after(seq![c[0]], sem_block(f, r, e))
            },
            Tok::Group(g) => match sem_block(f, g.body, e) {
                Err(x) => Err(x),
                Ok((o, e1)) => after(
                    seq![Tok::Group(GroupV { delim: g.delim, body: o, span: g.span })],
                    sem_block(f, r, e1),
                ),
            },
            t => after(seq![t], sem_block(f, r, e)),
        }
    }
}

/// The evaluation of a whole token sequence in a fresh environment.
pub open spec fn sem_evaluate(c: Seq<Tok>) -> Result<Seq<Tok>, EvalError> {
    match sem_block(FUEL as nat, c, push_scope(Seq::empty(), None)) {
        Ok((o, _)) => Ok(o),
        Err(x) => Err(x),
    }
}

/// Where a path ends: from the iteration's value if `own` holds it,
/// else from a binding of the environment.
pub open spec fn finish_path(own: Option<(Span, Val)>, path: Seq<SegV>, e: Seq<ScopeV>) -> Result<Val, EvalError> {
    match own {
        Some((s, v)) => index_item(v, s, path),
        None => resolve(e, path),
    }
}

pub open spec fn word_index() -> Seq<char> {
    seq!['i', 'n', 'd', 'e', 'x']
}

pub open spec fn word_key() -> Seq<char> {
    seq!['k', 'e', 'y']
}

pub open spec fn word_value() -> Seq<char> {
    seq!['v', 'a', 'l', 'u', 'e']
}

/// Reads the rest `c` of a path expression. `span` locates the last token
/// read, `needs` tells whether a step must come next, `path` holds the steps
/// read so far and `own` the iteration's value where the path began with it.
pub open spec fn path_loop(c: Seq<Tok>, span: Span, needs: bool, path: Seq<SegV>, own: Option<(Span, Val)>, e: Seq<ScopeV>)
    -> Result<Val, EvalError>
    decreases c.len(),
{
    if c.len() == 0 {
        if needs {
            Err(fail(span, Reason::UnexpectedEnd))
        } else {
            finish_path(own, path, e)
        }
    } else {
        let r = c.drop_first();
        let sp = c[0].span();
        match c[0] {
            Tok::Punct(ch, _, _) => if ch == '.' && !needs {
                path_loop(r, sp, true, path, own, e)
            } else if ch == '@' && own is None && path.len() == 0 {
                if r.len() == 0 {
                    match iter_of(e) {
                        None => Err(fail(sp, Reason::ValueOutsideIter)),
                        Some(it) => index_item(it.value, sp, Seq::empty()),
                    }
                } else {
                    match r[0] {
                        Tok::Ident(id, is) => if id == word_index() || id == word_key() {
                            if r.len() > 1 {
                                Err(fail(r[1].span(), Reason::UnexpectedToken))
                            } else {
                                let ids = join(sp, is);
                                match iter_of(e) {
                                    None => Err(fail(ids, if id == word_index() { Reason::IndexOutsideIter } else { Reason::KeyOutsideIter })),
                                    Some(it) => if id == word_index() {
                                        Ok(Val::Literal(decimal(it.index as nat), ids))
                                    } else {
                                        Ok(Val::Ident(it.key, ids))
                                    },
                                }
                            }
                        } else if id == word_value() {
                            let ids = join(sp, is);
                            match iter_of(e) {
                                None => Err(fail(ids, Reason::ValueOutsideIter)),
                                Some(it) => path_loop(r.drop_first(), is, false, path, Some((ids, it.value)), e),
                            }
                        } else {
                            Err(fail(is, Reason::UnexpectedToken))
                        },
                        Tok::Punct(d, _, ds) => if d == '.' {
                            match iter_of(e) {
                                None => Err(fail(sp, Reason::ValueOutsideIter)),
                                Some(it) => path_loop(r.drop_first(), ds, true, path, Some((sp, it.value)), e),
                            }
                        } else {
                            Err(fail(ds, Reason::UnexpectedToken))
                        },
                        t => Err(fail(t.span(), Reason::UnexpectedToken)),
                    }
                }
            } else {
                Err(fail(sp, Reason::UnexpectedToken))
            },
            Tok::Ident(s, _) => if needs {
                path_loop(r, sp, false, path.push(SegV { span: sp, key: KeyV::Name(s) }), own, e)
            } else {
                Err(fail(sp, Reason::UnexpectedToken))
            },
            Tok::Literal(s, _) => if needs && index_of_text(s) is Some {
                path_loop(r, sp, false, path.push(SegV { span: sp, key: KeyV::Index(index_of_text(s)->0) }), own, e)
            } else {
                Err(fail(sp, Reason::UnexpectedToken))
            },
            Tok::Group(_) => Err(fail(sp, Reason::UnexpectedToken)),
        }
    }
}

/// Resolves the path expression written inside the group `g`.
pub open spec fn sem_item_path(g: GroupV, e: Seq<ScopeV>) -> Result<Val, EvalError> {
    path_loop(g.body, g.span, true, Seq::empty(), None, e)
}

pub open spec fn own_view(own: Option<(Span, Rc<Item>)>) -> Option<(Span, Val)> {
    match own {
        Some((s, v)) => Some((s, (*v)@)),
        None => None,
    }
}

/// Resolves the path expression written inside `item_path`.
pub fn parse_item_path(item_path: Group, env: &Env) -> (r: Result<Rc<Item>, EvalError>)
    ensures
        match r {
            Ok(it) => sem_item_path(item_path@, env@) == Ok::<Val, EvalError>(it@),
            Err(x) => sem_item_path(item_path@, env@) == Err::<Val, EvalError>(x),
        },
{
    let ghost gv = item_path@;
    let ghost goal = sem_item_path(gv, env@);
    let mut span = item_path.span;
    let mut input = TokenIter::new(item_path.body);
    let mut path: Vec<Segment> = Vec::new();
    let mut needs = true;
    let mut own: Option<(Span, Rc<Item>)> = None;
    assert(segs_view(path@) =~= Seq::<SegV>::empty());
    loop
        invariant
            gv == item_path@,
            goal == sem_item_path(gv, env@),
            goal == path_loop(input@, span, needs, segs_view(path@), own_view(own), env@),
            own is None && !needs ==> path@.len() > 0,
        decreases input@.len(),
    {
        let token = match input.next() {
            Some(t) => t,
            None => {
                if needs {
                    return Err(EvalError { span, reason: Reason::UnexpectedEnd });
                }
                return match own {
                    Some((s, it)) => it.get_item(s, path.as_slice()),
                    None => env.get_item(path.as_slice()),
                };
            },
        };
        span = token.span();
        match token {
            Token::Punct(ch, _, _) => {
                if ch == '.' && !needs {
                    needs = true;
                } else if ch == '@' && own.is_none() && path.len() == 0 {
                    let at = span;
                    match input.next() {
                        None => {
                            return match env.get_iter_scope() {
                                None => Err(EvalError { span: at, reason: Reason::ValueOutsideIter }),
                                Some(it) => {
                                    let empty: Vec<Segment> = Vec::new();
                                    assert(segs_view(empty@) =~= Seq::<SegV>::empty());
                                    it.value.get_item(at, empty.as_slice())
                                },
                            };
                        },
                        Some(Token::Ident(id, is)) => {
                            let is_index = text_is(&id, &['i', 'n', 'd', 'e', 'x']);
                            let is_key = text_is(&id, &['k', 'e', 'y']);
                            if is_index || is_key {
                                match input.next() {
                                    Some(rest) => {
                                        return Err(EvalError { span: rest.span(), reason: Reason::UnexpectedToken });
                                    },
                                    None => {},
                                }
                                let ids = at.join(is);
                                return match env.get_iter_scope() {
                                    None => Err(EvalError {
                                        span: ids,
                                        reason: if is_index { Reason::IndexOutsideIter } else { Reason::KeyOutsideIter },
                                    }),
                                    Some(it) => {
                                        if is_index {
                                            Ok(Rc::new(Item::Literal(decimal_chars(it.index), ids)))
                                        } else {
                                            Ok(Rc::new(Item::Ident(crate::token::copy_chars(&it.key), ids)))
                                        }
                                    },
                                };
                            } else if text_is(&id, &['v', 'a', 'l', 'u', 'e']) {
                                let ids = at.join(is);
                                match env.get_iter_scope() {
                                    None => {
                                        return Err(EvalError { span: ids, reason: Reason::ValueOutsideIter });
                                    },
                                    Some(it) => {
                                        own = Some((ids, share(&it.value)));
                                        needs = false;
                                        span = is;
                                    },
                                }
                            } else {
                                return Err(EvalError { span: is, reason: Reason::UnexpectedToken });
                            }
                        },
                        Some(Token::Punct(d, _, ds)) => {
                            if d == '.' {
                                match env.get_iter_scope() {
                                    None => {
                                        return Err(EvalError { span: at, reason: Reason::ValueOutsideIter });
                                    },
                                    Some(it) => {
                                        own = Some((at, share(&it.value)));
                                        needs = true;
                                        span = ds;
                                    },
                                }
                            } else {
                                return Err(EvalError { span: ds, reason: Reason::UnexpectedToken });
                            }
                        },
                        Some(t) => {
                            return Err(EvalError { span: t.span(), reason: Reason::UnexpectedToken });
                        },
                    }
                } else {
                    return Err(EvalError { span, reason: Reason::UnexpectedToken });
                }
            },
            Token::Ident(s, _) => {
                if needs {
                    needs = false;
                    let ghost before = path@;
                    path.push(Segment { span, key: Key::String(s) });
                    assert(segs_view(path@) =~= segs_view(before).push(path@.last()@));
                } else {
                    return Err(EvalError { span, reason: Reason::UnexpectedToken });
                }
            },
            Token::Literal(s, _) => {
                let idx = if needs { parse_index(&s) } else { None };
                match idx {
                    Some(i) => {
                        needs = false;
                        let ghost before = path@;
                        path.push(Segment { span, key: Key::Index(i) });
                        assert(segs_view(path@) =~= segs_view(before).push(path@.last()@));
                    },
                    None => {
                        return Err(EvalError { span, reason: Reason::UnexpectedToken });
                    },
                }
            },
            Token::Group(_) => {
                return Err(EvalError { span, reason: Reason::UnexpectedToken });
            },
        }
    }
}

/// The output written from `before` to `after` and the environment `env`
/// are what `res` gives, or both failed alike.
pub open spec fn emitted(
    res: Result<(Seq<Tok>, Seq<ScopeV>), EvalError>,
    r: Result<(), EvalError>,
    before: Seq<Token>,
    after: Seq<Token>,
    env: Seq<ScopeV>,
) -> bool {
    lexer_dependent(res) || match (r, res) {
        (Ok(_), Ok((o, e))) => tokens_view(after) == tokens_view(before) + o && env == e,
        (Err(x), Err(y)) => x == y,
        _ => false,
    }
}

pub proof fn lemma_after_after(a: Seq<Tok>, b: Seq<Tok>, x: Result<(Seq<Tok>, Seq<ScopeV>), EvalError>)
    ensures
        after(a, after(b, x)) == after(a + b, x),
{
    match x {
        Ok((o, e)) => {
            assert(a + (b + o) =~= (a + b) + o);
        },
        Err(_) => {},
    }
}

/// Runs the block driver over what remains of `input`, appending the
/// expansion to `output`.
pub fn parse_block(fuel: u64, input: &mut TokenIter, output: &mut Vec<Token>, env: &mut Env) -> (r: Result<(), EvalError>)
    requires
        old(env)@.len() > 0,
    ensures
        final(env)@.len() == old(env)@.len(),
        final(env)@.drop_last() == old(env)@.drop_last(),
        tokens_view(old(output)@).is_prefix_of(tokens_view(final(output)@)),
        emitted(sem_block(fuel as nat, old(input)@, old(env)@), r, old(output)@, final(output)@, final(env)@),
    decreases fuel, 0nat,
{
    let ghost goal = sem_block(fuel as nat, input@, env@);
    let ghost out0 = tokens_view(output@);
    let ghost mut produced: Seq<Tok> = Seq::empty();
    let mut n: u64 = fuel;
    assert(out0 + produced =~= out0);
    assert(goal == after(produced, sem_block(n as nat, input@, env@))) by {
        match sem_block(n as nat, input@, env@) {
            Ok((o, e)) => {
                assert(produced + o =~= o);
            },
            Err(_) => {},
        }
    }
    assert(out0.is_prefix_of(out0));
    loop
        invariant
            n <= fuel,
            env@.len() == old(env)@.len(),
            env@.len() > 0,
            env@.drop_last() == old(env)@.drop_last(),
            out0 == tokens_view(old(output)@),
            goal == sem_block(fuel as nat, old(input)@, old(env)@),
            tokens_view(output@) == out0 + produced,
            lexer_dependent(goal) || goal == after(produced, sem_block(n as nat, input@, env@)),
        decreases n,
    {
        let ghost e0 = env@;
        let ghost o1 = tokens_view(output@);
        assert(out0.is_prefix_of(out0 + produced));
        let token = match input.next() {
            None => {
                assert(produced + Seq::<Tok>::empty() =~= produced);
                return Ok(());
            },
            Some(t) => t,
        };
        if n == 0 {
            return Err(EvalError { span: token.span(), reason: Reason::StepLimit });
        }
        let f: u64 = n - 1;
        match token {
            Token::Punct(ch, j, s) => {
                if ch == '$' {
                    let action = match parse_action(f, s, input, env) {
                        Ok(a) => a,
                        Err(x) => {
                            return Err(x);
                        },
                    };
                    match action {
                        Action::Escape(p) => {
                            let ghost pv = p@;
                            let ghost ob = output@;
                            output.push(p);
                            proof {
                                lemma_tokens_view_push(ob, output@.last());
                                assert(output@ == ob.push(output@.last()));
                                lemma_after_after(produced, seq![pv], sem_block(f as nat, input@, env@));
                                produced = produced + seq![pv];
                            }
                        },
                        Action::Assign(name, a) => {
                            let item = match parse_assign(f, a, env) {
                                Ok(it) => it,
                                Err(x) => {
                                    return Err(x);
                                },
                            };
                            env.set_item(name, item);
                            assert(env@.drop_last() =~= e0.drop_last());
                        },
                        Action::Quote(q) => {
                            let ghost qv = q@;
                            let rq = parse_quote(f, s, q, output, env);
                            let ghost delta = tokens_view(output@).subrange(o1.len() as int, tokens_view(output@).len() as int);
                            proof {
                                lemma_prefix_trans(out0, o1, tokens_view(output@));
                                assert(tokens_view(output@) =~= o1 + delta);
                            }
                            match rq {
                                Ok(_) => {},
                                Err(x) => {
                                    return Err(x);
                                },
                            }
                            proof {
                                match sem_quote(f as nat, s, qv, e0) {
                                    Ok((qo, e1)) => {
                                        assert(qo =~= delta);
                                        lemma_after_after(produced, qo, sem_block(f as nat, input@, env@));
                                    },
                                    Err(_) => {},
                                }
                                produced = produced + delta;
                            }
                        },
                    }
                } else {
                    let t = Token::Punct(ch, j, s);
                    let ghost tv = t@;
                    let ghost ob = output@;
                    output.push(t);
                    proof {
                        lemma_tokens_view_push(ob, output@.last());
                        assert(output@ == ob.push(output@.last()));
                        lemma_after_after(produced, seq![tv], sem_block(f as nat, input@, env@));
                        produced = produced + seq![tv];
                    }
                }
            },
            Token::Group(g) => {
                let mut sub: Vec<Token> = Vec::new();
                let mut it = TokenIter::new(g.body);
                match parse_block(f, &mut it, &mut sub, env) {
                    Ok(_) => {},
                    Err(x) => {
                        return Err(x);
                    },
                }
                let t = Token::Group(Group { delim: g.delim, body: sub, span: g.span });
                let ghost tv = t@;
                let ghost ob = output@;
                output.push(t);
                proof {
                    lemma_tokens_view_push(ob, output@.last());
                    assert(output@ == ob.push(output@.last()));
                    lemma_after_after(produced, seq![tv], sem_block(f as nat, input@, env@));
                    produced = produced + seq![tv];
                }
            },
            t => {
                let ghost tv = t@;
                let ghost ob = output@;
                output.push(t);
                proof {
                    lemma_tokens_view_push(ob, output@.last());
                    assert(output@ == ob.push(output@.last()));
                    lemma_after_after(produced, seq![tv], sem_block(f as nat, input@, env@));
                    produced = produced + seq![tv];
                }
            },
        }
        n = f;
    }
}

/// Expands a whole token sequence in a fresh environment.
pub fn evaluate(input: Vec<Token>) -> (r: Result<Vec<Token>, EvalError>)
    ensures
        lexer_dependent(sem_evaluate(tokens_view(input@))) || match r {
            Ok(o) => sem_evaluate(tokens_view(input@)) == Ok::<Seq<Tok>, EvalError>(tokens_view(o@)),
            Err(x) => sem_evaluate(tokens_view(input@)) == Err::<Seq<Tok>, EvalError>(x),
        },
{
    let mut cursor = TokenIter::new(input);
    let mut output: Vec<Token> = Vec::new();
    let mut env = Env::new();
    match parse_block(FUEL, &mut cursor, &mut output, &mut env) {
        Ok(_) => {
            assert(tokens_view(Seq::<Token>::empty()) =~= Seq::<Tok>::empty());
            assert(Seq::<Tok>::empty() + tokens_view(output@) =~= tokens_view(output@));
            Ok(output)
        },
        Err(x) => Err(x),
    }
}

} // verus!
