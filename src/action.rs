use vstd::prelude::*;
use crate::token::{Delim, Group, GroupV, Span, Tok, Token, join};
use crate::cursor::TokenIter;
use crate::error::{EvalError, Reason, fail, lexer_dependent};
use crate::text::text_is;
use crate::quotes::{BlockModifier, ItemModifier, Quote, QuoteV};
use crate::assign::{Assign, AssignV, parse_assign_value, sem_assign_value};
use crate::env::{Env, ScopeV};

verus! {

broadcast use crate::token::lemma_tokens_view;

/// A directive as the grammar reads it, before the value of a binding.
pub enum Head {
    /// A doubled sigil: the sigil itself.
    Escape(Token),
    /// A binding of a name; the span is that of the `:`.
    Assign(Vec<char>, Span),
    Quote(Quote),
}

pub enum ActionV {
    Escape(Tok),
    Assign(Seq<char>, Span),
    Quote(QuoteV),
}

impl View for Head {
    type V = ActionV;

    open spec fn view(&self) -> ActionV {
        match self {
            Head::Escape(t) => ActionV::Escape(t@),
            Head::Assign(n, s) => ActionV::Assign(n@, *s),
            Head::Quote(q) => ActionV::Quote(q@),
        }
    }
}

pub open spec fn word_first() -> Seq<char> {
    seq!['f', 'i', 'r', 's', 't']
}

pub open spec fn word_last() -> Seq<char> {
    seq!['l', 'a', 's', 't']
}

pub open spec fn word_concat() -> Seq<char> {
    seq!['c', 'o', 'n', 'c', 'a', 't', '_', 'i', 'd', 'e', 'n', 't']
}

pub open spec fn word_len() -> Seq<char> {
    seq!['l', 'e', 'n']
}

/// The brace group that must come next; `span` locates what came before.
pub open spec fn next_brace(span: Span, c: Seq<Tok>) -> Result<(GroupV, Seq<Tok>), EvalError> {
    if c.len() == 0 {
        Err(fail(span, Reason::UnexpectedEnd))
    } else {
        match c[0] {
            Tok::Group(g) => if g.delim == Delim::Brace {
                Ok((g, c.drop_first()))
            } else {
                Err(fail(g.span, Reason::UnexpectedToken))
            },
            t => Err(fail(t.span(), Reason::UnexpectedToken)),
        }
    }
}

/// The directive grammar after a sigil at `span`: the action read from the
/// front of `c`, and what remains of `c`.
pub open spec fn sem_action(span: Span, c: Seq<Tok>) -> Result<(ActionV, Seq<Tok>), EvalError> {
    if c.len() == 0 {
        Err(fail(span, Reason::UnexpectedEnd))
    } else {
        let r = c.drop_first();
        match c[0] {
            Tok::Ident(id, s) => if r.len() == 0 {
                Err(fail(s, Reason::UnexpectedEnd))
            } else {
                match r[0] {
                    Tok::Punct(ch, _, ps) => if ch == ':' {
                        Ok((ActionV::Assign(id, ps), r.drop_first()))
                    } else {
                        Err(fail(ps, Reason::UnexpectedToken))
                    },
                    Tok::Group(g) => if g.delim == Delim::Brace {
                        if id == word_first() {
                            Ok((ActionV::Quote(QuoteV::Block(BlockModifier::First, g)), r.drop_first()))
                        } else if id == word_last() {
                            Ok((ActionV::Quote(QuoteV::Block(BlockModifier::Last, g)), r.drop_first()))
                        } else if id == word_concat() {
                            Ok((ActionV::Quote(QuoteV::Block(BlockModifier::Concat, g)), r.drop_first()))
                        } else {
                            Err(fail(s, Reason::UnknownModifier))
                        }
                    } else if g.delim == Delim::Paren {
                        if id == word_len() {
                            Ok((ActionV::Quote(QuoteV::Item(ItemModifier::Len, g)), r.drop_first()))
                        } else {
                            Err(fail(s, Reason::UnknownModifier))
                        }
                    } else {
                        Err(fail(g.span, Reason::UnexpectedToken))
                    },
                    t => Err(fail(t.span(), Reason::UnexpectedToken)),
                }
            },
            Tok::Punct(ch, j, s) => if ch == '$' {
                Ok((ActionV::Escape(Tok::Punct(ch, j, s)), r))
            } else if ch == '#' {
                match next_brace(s, r) {
                    Ok((g, r2)) => Ok((ActionV::Quote(QuoteV::Block(BlockModifier::Concat, g)), r2)),
                    Err(e) => Err(e),
                }
            } else if ch == '!' {
                if r.len() == 0 {
                    Err(fail(s, Reason::UnexpectedEnd))
                } else {
                    match r[0] {
                        Tok::Ident(id, is) => if id != word_first() && id != word_last() {
                            Err(fail(join(s, is), Reason::UnknownModifier))
                        } else {
                            match next_brace(is, r.drop_first()) {
                                Ok((g, r2)) => Ok((ActionV::Quote(QuoteV::Block(
                                    if id == word_first() { BlockModifier::NotFirst } else { BlockModifier::NotLast },
                                    g,
                                )), r2)),
                                Err(e) => Err(e),
                            }
                        },
                        t => Err(fail(t.span(), Reason::UnexpectedToken)),
                    }
                }
            } else {
                Err(fail(s, Reason::UnexpectedToken))
            },
            Tok::Group(g) => if g.delim == Delim::Paren {
                Ok((ActionV::Quote(QuoteV::Item(ItemModifier::Plain, g)), r))
            } else if g.delim == Delim::Bracket {
                match next_brace(g.span, r) {
                    Ok((b, r2)) => Ok((ActionV::Quote(QuoteV::Iter(g, b)), r2)),
                    Err(e) => Err(e),
                }
            } else {
                Err(fail(g.span, Reason::UnexpectedToken))
            },
            Tok::Literal(_, s) => Err(fail(s, Reason::UnexpectedToken)),
        }
    }
}

fn expect_brace(span: Span, input: &mut TokenIter) -> (r: Result<Group, EvalError>)
    ensures
        match r {
            Ok(g) => next_brace(span, old(input)@) == Ok::<(GroupV, Seq<Tok>), EvalError>((g@, final(input)@)),
            Err(e) => next_brace(span, old(input)@) == Err::<(GroupV, Seq<Tok>), EvalError>(e),
        },
{
    match input.next() {
        None => Err(EvalError { span, reason: Reason::UnexpectedEnd }),
        Some(Token::Group(g)) => {
            if g.delim == Delim::Brace {
                Ok(g)
            } else {
                Err(EvalError { span: g.span, reason: Reason::UnexpectedToken })
            }
        },
        Some(t) => Err(EvalError { span: t.span(), reason: Reason::UnexpectedToken }),
    }
}

/// Reads the grammar of the directive that follows a sigil at `span`.
pub fn read_action(span: Span, input: &mut TokenIter) -> (r: Result<Head, EvalError>)
    ensures
        match r {
            Ok(a) => sem_action(span, old(input)@) == Ok::<(ActionV, Seq<Tok>), EvalError>((a@, final(input)@)),
            Err(e) => sem_action(span, old(input)@) == Err::<(ActionV, Seq<Tok>), EvalError>(e),
        },
{
    let first = match input.next() {
        None => {
            return Err(EvalError { span, reason: Reason::UnexpectedEnd });
        },
        Some(t) => t,
    };
    match first {
        Token::Ident(id, s) => {
            let second = match input.next() {
                None => {
                    return Err(EvalError { span: s, reason: Reason::UnexpectedEnd });
                },
                Some(t) => t,
            };
            match second {
                Token::Punct(ch, _, ps) => {
                    if ch == ':' {
                        Ok(Head::Assign(id, ps))
                    } else {
                        Err(EvalError { span: ps, reason: Reason::UnexpectedToken })
                    }
                },
                Token::Group(g) => {
                    if g.delim == Delim::Brace {
                        if text_is(&id, &['f', 'i', 'r', 's', 't']) {
                            Ok(Head::Quote(Quote::Block(BlockModifier::First, g)))
                        } else if text_is(&id, &['l', 'a', 's', 't']) {
                            Ok(Head::Quote(Quote::Block(BlockModifier::Last, g)))
                        } else if text_is(&id, &['c', 'o', 'n', 'c', 'a', 't', '_', 'i', 'd', 'e', 'n', 't']) {
                            Ok(Head::Quote(Quote::Block(BlockModifier::Concat, g)))
                        } else {
                            Err(EvalError { span: s, reason: Reason::UnknownModifier })
                        }
                    } else if g.delim == Delim::Paren {
                        if text_is(&id, &['l', 'e', 'n']) {
                            Ok(Head::Quote(Quote::Item(ItemModifier::Len, g)))
                        } else {
                            Err(EvalError { span: s, reason: Reason::UnknownModifier })
                        }
                    } else {
                        Err(EvalError { span: g.span, reason: Reason::UnexpectedToken })
                    }
                },
                t => Err(EvalError { span: t.span(), reason: Reason::UnexpectedToken }),
            }
        },
        Token::Punct(ch, j, s) => {
            if ch == '$' {
                Ok(Head::Escape(Token::Punct(ch, j, s)))
            } else if ch == '#' {
                let g = expect_brace(s, input)?;
                Ok(Head::Quote(Quote::Block(BlockModifier::Concat, g)))
            } else if ch == '!' {
                let t = match input.next() {
                    None => {
                        return Err(EvalError { span: s, reason: Reason::UnexpectedEnd });
                    },
                    Some(t) => t,
                };
                match t {
                    Token::Ident(id, is) => {
                        let is_first = text_is(&id, &['f', 'i', 'r', 's', 't']);
                        let is_last = text_is(&id, &['l', 'a', 's', 't']);
                        if !is_first && !is_last {
                            return Err(EvalError { span: s.join(is), reason: Reason::UnknownModifier });
                        }
                        let g = expect_brace(is, input)?;
                        let m = if is_first { BlockModifier::NotFirst } else { BlockModifier::NotLast };
                        Ok(Head::Quote(Quote::Block(m, g)))
                    },
                    t => Err(EvalError { span: t.span(), reason: Reason::UnexpectedToken }),
                }
            } else {
                Err(EvalError { span: s, reason: Reason::UnexpectedToken })
            }
        },
        Token::Group(g) => {
            if g.delim == Delim::Paren {
                Ok(Head::Quote(Quote::Item(ItemModifier::Plain, g)))
            } else if g.delim == Delim::Bracket {
                let b = expect_brace(g.span, input)?;
                Ok(Head::Quote(Quote::Iter(g, b)))
            } else {
                Err(EvalError { span: g.span, reason: Reason::UnexpectedToken })
            }
        },
        Token::Literal(_, s) => Err(EvalError { span: s, reason: Reason::UnexpectedToken }),
    }
}

/// What a directive asks for, with the value of a binding read.
pub enum Action {
    /// A doubled sigil: the sigil itself.
    Escape(Token),
    /// A binding of a name to a value expression.
    Assign(Vec<char>, Assign),
    Quote(Quote),
}

pub enum DirectiveV {
    Escape(Tok),
    Assign(Seq<char>, AssignV),
    Quote(QuoteV),
}

impl View for Action {
    type V = DirectiveV;

    open spec fn view(&self) -> DirectiveV {
        match self {
            Action::Escape(t) => DirectiveV::Escape(t@),
            Action::Assign(n, a) => DirectiveV::Assign(n@, a@),
            Action::Quote(q) => DirectiveV::Quote(q@),
        }
    }
}

/// The directive after a sigil at `span`: the grammar, then for a binding
/// the value expression after the `:`.
pub open spec fn sem_parse_action(fuel: nat, span: Span, c: Seq<Tok>, e: Seq<ScopeV>)
    -> Result<(DirectiveV, Seq<Tok>, Seq<ScopeV>), EvalError>
{
    match sem_action(span, c) {
        Err(x) => Err(x),
        Ok((ActionV::Escape(t), r)) => Ok((DirectiveV::Escape(t), r, e)),
        Ok((ActionV::Quote(q), r)) => Ok((DirectiveV::Quote(q), r, e)),
        Ok((ActionV::Assign(n, cs), r)) => match sem_assign_value(fuel, cs, r, e) {
            Err(x) => Err(x),
            Ok((a, r2, e2)) => Ok((DirectiveV::Assign(n, a), r2, e2)),
        },
    }
}

/// Reads the directive that follows a sigil at `span`, and for a binding
/// the value expression after the `:`.
pub fn parse_action(fuel: u64, span: Span, input: &mut TokenIter, env: &mut Env) -> (r: Result<Action, EvalError>)
    requires
        old(env)@.len() > 0,
    ensures
        final(env)@ == old(env)@,
        lexer_dependent(sem_parse_action(fuel as nat, span, old(input)@, old(env)@)) || match r {
            Ok(a) => sem_parse_action(fuel as nat, span, old(input)@, old(env)@)
                == Ok::<(DirectiveV, Seq<Tok>, Seq<ScopeV>), EvalError>((a@, final(input)@, final(env)@)),
            Err(x) => sem_parse_action(fuel as nat, span, old(input)@, old(env)@)
                == Err::<(DirectiveV, Seq<Tok>, Seq<ScopeV>), EvalError>(x),
        },
    decreases fuel, 6nat,
{
    let head = match read_action(span, input) {
        Ok(h) => h,
        Err(x) => {
            return Err(x);
        },
    };
    match head {
        Head::Escape(t) => Ok(Action::Escape(t)),
        Head::Quote(q) => Ok(Action::Quote(q)),
        Head::Assign(name, cs) => {
            let a = match parse_assign_value(fuel, cs, input, env) {
                Ok(a) => a,
                Err(x) => {
                    return Err(x);
                },
            };
            Ok(Action::Assign(name, a))
        },
    }
}

} // verus!
