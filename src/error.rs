use vstd::prelude::*;
use crate::token::Span;

verus! {

/// The class of an evaluation failure.
#[derive(Clone, Copy, Debug, PartialEq, Eq, Structural)]
pub enum ErrorKind {
    Syntax,
    Scope,
    NotFound,
    Type,
    EndOfInput,
    Limit,
}

/// What went wrong, one variant per message.
#[derive(Clone, Copy, Debug, PartialEq, Eq, Structural)]
pub enum Reason {
    UnexpectedToken,
    UnexpectedEnd,
    UnknownModifier,
    UnexpectedAssignment,
    NotAnIdentifier,
    ItemNotFound,
    NotIndexable,
    ListByIdent,
    MapByInteger,
    ScopeByInteger,
    QuoteList,
    QuoteMap,
    ValueOutsideIter,
    IndexOutsideIter,
    KeyOutsideIter,
    StepLimit,
    /// Used by the semantics only: a concatenation whose text only the
    /// lexer in use can judge. Evaluation never returns it.
    LexerDependent,
}

/// A failure and the location it is attributed to.
#[derive(Clone, Copy, Debug, PartialEq, Eq, Structural)]
pub struct EvalError {
    pub span: Span,
    pub reason: Reason,
}

pub open spec fn kind_of(r: Reason) -> ErrorKind {
    match r {
        Reason::UnexpectedToken | Reason::UnknownModifier | Reason::UnexpectedAssignment
        | Reason::NotAnIdentifier => ErrorKind::Syntax,
        Reason::UnexpectedEnd => ErrorKind::EndOfInput,
        Reason::ItemNotFound => ErrorKind::NotFound,
        Reason::NotIndexable | Reason::ListByIdent | Reason::MapByInteger
        | Reason::ScopeByInteger | Reason::QuoteList | Reason::QuoteMap => ErrorKind::Type,
        Reason::ValueOutsideIter | Reason::IndexOutsideIter | Reason::KeyOutsideIter => ErrorKind::Scope,
        Reason::StepLimit => ErrorKind::Limit,
        Reason::LexerDependent => ErrorKind::Syntax,
    }
}

/// The semantics leaves the outcome to the lexer in use.
pub open spec fn lexer_dependent<T>(res: Result<T, EvalError>) -> bool {
    match res {
        Err(e) => e.reason == Reason::LexerDependent,
        Ok(_) => false,
    }
}

pub open spec fn fail(span: Span, reason: Reason) -> EvalError {
    EvalError { span, reason }
}

impl Reason {
    pub fn kind(&self) -> (r: ErrorKind)
        ensures
            r == kind_of(*self),
    {
        match self {
            Reason::UnexpectedToken | Reason::UnknownModifier | Reason::UnexpectedAssignment
            | Reason::NotAnIdentifier => ErrorKind::Syntax,
            Reason::UnexpectedEnd => ErrorKind::EndOfInput,
            Reason::ItemNotFound => ErrorKind::NotFound,
            Reason::NotIndexable | Reason::ListByIdent | Reason::MapByInteger
            | Reason::ScopeByInteger | Reason::QuoteList | Reason::QuoteMap => ErrorKind::Type,
            Reason::ValueOutsideIter | Reason::IndexOutsideIter | Reason::KeyOutsideIter => ErrorKind::Scope,
            Reason::StepLimit => ErrorKind::Limit,
            Reason::LexerDependent => ErrorKind::Syntax,
        }
    }

    /// A short description of the failure.
    pub fn message(&self) -> &'static str {
        match self {
            Reason::UnexpectedToken => "unexpected token",
            Reason::UnexpectedEnd => "unexpected end of input",
            Reason::UnknownModifier => "unknown modifier",
            Reason::UnexpectedAssignment => "unexpected assignment",
            Reason::NotAnIdentifier => "this doesn't evaluate to a valid identifier",
            Reason::ItemNotFound => "item not found",
            Reason::NotIndexable => "item is not indexable",
            Reason::ListByIdent => "can't index list with an identifier",
            Reason::MapByInteger => "can't index map with an integer",
            Reason::ScopeByInteger => "can't index scope with an integer",
            Reason::QuoteList => "can not quote a list item",
            Reason::QuoteMap => "can not quote a map item",
            Reason::ValueOutsideIter => "@ is only available in iterator blocks",
            Reason::IndexOutsideIter => "@index is only available in iterator blocks",
            Reason::KeyOutsideIter => "@key is only available in iterator blocks",
            Reason::StepLimit => "evaluation step limit reached",
            Reason::LexerDependent => "the identifier depends on the lexer in use",
        }
    }
}

} // verus!
