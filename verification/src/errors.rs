//! Error model. Every error carries a message and an ordered stack of
//! context lines; helper adapters let intermediate frames push a context line
//! while an error propagates. Planning aborts on parse/specification errors;
//! evaluation errors propagate as external errors.

use vstd::prelude::*;

verus! {

/// Ordered stack of context lines carried by an error; lines are pushed
/// outermost-last while the error propagates.
#[derive(Debug)]
pub struct ErrorContext {
    pub contexts: Vec<String>,
}

/// The views of the context lines, innermost first.
pub open spec fn context_views(c: ErrorContext) -> Seq<Seq<char>> {
    Seq::new(c.contexts@.len(), |i: int| c.contexts@[i]@)
}

impl ErrorContext {
    pub fn new() -> (r: Self)
        ensures
            context_views(r) =~= Seq::<Seq<char>>::empty(),
    {
        ErrorContext { contexts: Vec::new() }
    }
}

impl Clone for ErrorContext {
    fn clone(&self) -> (r: Self)
        ensures
            context_views(r) == context_views(*self),
    {
        let mut contexts: Vec<String> = Vec::new();
        let mut i: usize = 0;
        while i < self.contexts.len()
            invariant
                i <= self.contexts@.len(),
                contexts@.len() == i as int,
                forall|j: int| 0 <= j < i as int ==> contexts@[j]@ == self.contexts@[j]@,
            decreases self.contexts@.len() - i as int,
        {
            contexts.push(self.contexts[i].clone());
            i = i + 1;
        }
        let r = ErrorContext { contexts };
        proof {
            assert(context_views(r) =~= context_views(*self));
        }
        r
    }
}

/// The kinds of error the engine reports. Parse and specification errors
/// abort planning; internal errors indicate a contract violation; external
/// errors wrap failures of outside collaborators (evaluators, I/O, codecs).
#[derive(Debug, Clone, Copy, PartialEq, Eq, Structural)]
pub enum ErrorKind {
    Parse,
    Compilation,
    Internal,
    External,
    Specification,
}

/// An error: a kind, a message, and a context stack.
#[derive(Debug)]
pub enum VegaFusionError {
    ParseError(String, ErrorContext),
    CompilationError(String, ErrorContext),
    InternalError(String, ErrorContext),
    ExternalError(String, ErrorContext),
    SpecificationError(String, ErrorContext),
}

pub type Result<T> = core::result::Result<T, VegaFusionError>;

/// The kind of an error.
pub open spec fn error_kind(e: VegaFusionError) -> ErrorKind {
    match e {
        VegaFusionError::ParseError(_, _) => ErrorKind::Parse,
        VegaFusionError::CompilationError(_, _) => ErrorKind::Compilation,
        VegaFusionError::InternalError(_, _) => ErrorKind::Internal,
        VegaFusionError::ExternalError(_, _) => ErrorKind::External,
        VegaFusionError::SpecificationError(_, _) => ErrorKind::Specification,
    }
}

/// The view of an error's message.
pub open spec fn error_message(e: VegaFusionError) -> Seq<char> {
    match e {
        VegaFusionError::ParseError(m, _) => m@,
        VegaFusionError::CompilationError(m, _) => m@,
        VegaFusionError::InternalError(m, _) => m@,
        VegaFusionError::ExternalError(m, _) => m@,
        VegaFusionError::SpecificationError(m, _) => m@,
    }
}

/// The views of an error's context lines.
pub open spec fn error_contexts(e: VegaFusionError) -> Seq<Seq<char>> {
    match e {
        VegaFusionError::ParseError(_, c) => context_views(c),
        VegaFusionError::CompilationError(_, c) => context_views(c),
        VegaFusionError::InternalError(_, c) => context_views(c),
        VegaFusionError::ExternalError(_, c) => context_views(c),
        VegaFusionError::SpecificationError(_, c) => context_views(c),
    }
}

/// Builds an error of the given kind with the given message and no context.
pub open spec fn is_fresh_error(e: VegaFusionError, kind: ErrorKind, message: Seq<char>) -> bool {
    &&& error_kind(e) == kind
    &&& error_message(e) == message
    &&& error_contexts(e) =~= Seq::<Seq<char>>::empty()
}

impl VegaFusionError {
    /// Append a new context line to the error, keeping its kind and message.
    pub fn with_context(self, context: &str) -> (r: Self)
        ensures
            error_kind(r) == error_kind(self),
            error_message(r) == error_message(self),
            error_contexts(r) =~= error_contexts(self).push(context@),
    {
        match self {
            VegaFusionError::ParseError(msg, mut c) => {
                c.contexts.push(context.to_owned());
                proof {
                    assert(context_views(c) =~= error_contexts(self).push(context@));
                }
                VegaFusionError::ParseError(msg, c)
            }
            VegaFusionError::CompilationError(msg, mut c) => {
                c.contexts.push(context.to_owned());
                proof {
                    assert(context_views(c) =~= error_contexts(self).push(context@));
                }
                VegaFusionError::CompilationError(msg, c)
            }
            VegaFusionError::InternalError(msg, mut c) => {
                c.contexts.push(context.to_owned());
                proof {
                    assert(context_views(c) =~= error_contexts(self).push(context@));
                }
                VegaFusionError::InternalError(msg, c)
            }
            VegaFusionError::ExternalError(msg, mut c) => {
                c.contexts.push(context.to_owned());
                proof {
                    assert(context_views(c) =~= error_contexts(self).push(context@));
                }
                VegaFusionError::ExternalError(msg, c)
            }
            VegaFusionError::SpecificationError(msg, mut c) => {
                c.contexts.push(context.to_owned());
                proof {
                    assert(context_views(c) =~= error_contexts(self).push(context@));
                }
                VegaFusionError::SpecificationError(msg, c)
            }
        }
    }

    pub fn parse(message: &str) -> (r: Self)
        ensures
            is_fresh_error(r, ErrorKind::Parse, message@),
    {
        VegaFusionError::ParseError(message.to_owned(), ErrorContext::new())
    }

    pub fn compilation(message: &str) -> (r: Self)
        ensures
            is_fresh_error(r, ErrorKind::Compilation, message@),
    {
        VegaFusionError::CompilationError(message.to_owned(), ErrorContext::new())
    }

    pub fn internal(message: &str) -> (r: Self)
        ensures
            is_fresh_error(r, ErrorKind::Internal, message@),
    {
        VegaFusionError::InternalError(message.to_owned(), ErrorContext::new())
    }

    pub fn external(message: &str) -> (r: Self)
        ensures
            is_fresh_error(r, ErrorKind::External, message@),
    {
        VegaFusionError::ExternalError(message.to_owned(), ErrorContext::new())
    }

    pub fn specification(message: &str) -> (r: Self)
        ensures
            is_fresh_error(r, ErrorKind::Specification, message@),
    {
        VegaFusionError::SpecificationError(message.to_owned(), ErrorContext::new())
    }

    /// Duplicate the error: same kind, message and context stack.
    pub fn duplicate(&self) -> (r: Self)
        ensures
            error_kind(r) == error_kind(*self),
            error_message(r) == error_message(*self),
            error_contexts(r) == error_contexts(*self),
    {
        match self {
            VegaFusionError::ParseError(msg, c) => {
                VegaFusionError::ParseError(msg.clone(), c.clone())
            }
            VegaFusionError::CompilationError(msg, c) => {
                VegaFusionError::CompilationError(msg.clone(), c.clone())
            }
            VegaFusionError::InternalError(msg, c) => {
                VegaFusionError::InternalError(msg.clone(), c.clone())
            }
            VegaFusionError::ExternalError(msg, c) => {
                VegaFusionError::ExternalError(msg.clone(), c.clone())
            }
            VegaFusionError::SpecificationError(msg, c) => {
                VegaFusionError::SpecificationError(msg.clone(), c.clone())
            }
        }
    }

    /// The kind of the error, for callers that dispatch on it.
    pub fn kind(&self) -> (r: ErrorKind)
        ensures
            r == error_kind(*self),
    {
        match self {
            VegaFusionError::ParseError(_, _) => ErrorKind::Parse,
            VegaFusionError::CompilationError(_, _) => ErrorKind::Compilation,
            VegaFusionError::InternalError(_, _) => ErrorKind::Internal,
            VegaFusionError::ExternalError(_, _) => ErrorKind::External,
            VegaFusionError::SpecificationError(_, _) => ErrorKind::Specification,
        }
    }
}

/// Relies on std's format macro: renders an out-of-range node index for an
/// error context line.
#[verifier::external_body]
pub fn index_context(node_index: usize) -> (r: String)
    ensures
        r@.len() > 0,
{
    format!("Node index {} out of bounds", node_index)
}

/// Push a context line onto the error of a failed computation; successes are
/// returned unchanged.
pub trait ResultWithContext<R> {
    fn with_context(self, context: &str) -> Result<R>;
}

impl<R> ResultWithContext<R> for Result<R> {
    fn with_context(self, context: &str) -> (r: Result<R>)
        ensures
            self is Ok ==> r is Ok && r->Ok_0 == self->Ok_0,
            self is Err ==> r is Err && {
                let e = self->Err_0;
                let re = r->Err_0;
                &&& error_kind(re) == error_kind(e)
                &&& error_message(re) == error_message(e)
                &&& error_contexts(re) =~= error_contexts(e).push(context@)
            },
    {
        match self {
            Ok(val) => Ok(val),
            Err(err) => Err(err.with_context(context)),
        }
    }
}

impl<R> ResultWithContext<R> for Option<R> {
    fn with_context(self, context: &str) -> (r: Result<R>)
        ensures
            self is Some ==> r is Ok && r->Ok_0 == self->0,
            self is None ==> r is Err && is_fresh_error(r->Err_0, ErrorKind::Internal, context@),
    {
        match self {
            Some(val) => Ok(val),
            None => Err(VegaFusionError::internal(context)),
        }
    }
}

/// Turn the failure of an outside collaborator, already rendered as a string,
/// into an external error with a context line.
pub trait ToExternalError<T> {
    fn external(self, context: &str) -> Result<T>;
}

impl<T> ToExternalError<T> for core::result::Result<T, String> {
    fn external(self, context: &str) -> (r: Result<T>)
        ensures
            self is Ok ==> r is Ok && r->Ok_0 == self->Ok_0,
            self is Err ==> r is Err && {
                let re = r->Err_0;
                &&& error_kind(re) == ErrorKind::External
                &&& error_message(re) == self->Err_0@
                &&& error_contexts(re) =~= seq![context@]
            },
    {
        match self {
            Ok(v) => Ok(v),
            Err(err) => Err(
                VegaFusionError::external(err.as_str()).with_context(context),
            ),
        }
    }
}

} // verus!
