use vstd::prelude::*;
use crate::uri::{Uri, UriV, clone_chars};

verus! {

/// Mathematical value of a [`WrapError`].
#[verifier::ext_equal]
pub enum ErrV {
    UriParse,
    Resolution(Seq<char>),
    InfiniteLoop(UriV),
    LoadWrapper(Seq<char>),
    Manifest(Seq<char>),
    MethodNotFound(UriV, Seq<char>),
    Invoke(Seq<char>),
    Wrapper(Seq<char>),
    Subinvocation { uri: UriV, method: Seq<char>, cause: Box<ErrV> },
    NotFound,
}

/// Everything that can go wrong while resolving a URI or invoking a wrapper.
///
/// `NotFound` is a sentinel that resolvers use among themselves: an
/// aggregator treats it as "try the next resolver".
#[derive(Debug)]
pub enum WrapError {
    /// The URI string is malformed.
    UriParseError,
    /// An individual resolver failed.
    ResolutionError(Vec<char>),
    /// A cycle was detected during resolution or redirect application.
    InfiniteLoop(Uri),
    /// Resolution ended in a state that is neither wrapper nor package.
    LoadWrapperError(Vec<char>),
    /// A package produced a malformed manifest.
    ManifestError(Vec<char>),
    /// The wrapper has no method of the requested name.
    MethodNotFound(Uri, Vec<char>),
    /// Argument handling or in-wrapper failure.
    InvokeError(Vec<char>),
    /// The wrapper aborted explicitly.
    WrapperError(Vec<char>),
    /// A sub-invocation issued by a running wrapper failed.
    SubinvocationError { uri: Uri, method: Vec<char>, cause: Box<WrapError> },
    /// Sentinel: the resolver has nothing for this URI.
    NotFound,
}

/// Mathematical value of an error.
pub open spec fn err_view(e: WrapError) -> ErrV
    decreases e,
{
    match e {
        WrapError::UriParseError => ErrV::UriParse,
        WrapError::ResolutionError(m) => ErrV::Resolution(m@),
        WrapError::InfiniteLoop(u) => ErrV::InfiniteLoop(u@),
        WrapError::LoadWrapperError(m) => ErrV::LoadWrapper(m@),
        WrapError::ManifestError(m) => ErrV::Manifest(m@),
        WrapError::MethodNotFound(u, m) => ErrV::MethodNotFound(u@, m@),
        WrapError::InvokeError(m) => ErrV::Invoke(m@),
        WrapError::WrapperError(m) => ErrV::Wrapper(m@),
        WrapError::SubinvocationError { uri, method, cause } => ErrV::Subinvocation {
            uri: uri@,
            method: method@,
            cause: Box::new(err_view(*cause)),
        },
        WrapError::NotFound => ErrV::NotFound,
    }
}

impl View for WrapError {
    type V = ErrV;

    open spec fn view(&self) -> ErrV {
        err_view(*self)
    }
}

impl Clone for WrapError {
    /// The copy has the same view.
    fn clone(&self) -> (r: Self)
        ensures
            r@ == self@,
        decreases self,
    {
        match self {
            WrapError::UriParseError => WrapError::UriParseError,
            WrapError::ResolutionError(m) => WrapError::ResolutionError(clone_chars(m)),
            WrapError::InfiniteLoop(u) => WrapError::InfiniteLoop(u.clone()),
            WrapError::LoadWrapperError(m) => WrapError::LoadWrapperError(clone_chars(m)),
            WrapError::ManifestError(m) => WrapError::ManifestError(clone_chars(m)),
            WrapError::MethodNotFound(u, m) => WrapError::MethodNotFound(u.clone(), clone_chars(m)),
            WrapError::InvokeError(m) => WrapError::InvokeError(clone_chars(m)),
            WrapError::WrapperError(m) => WrapError::WrapperError(clone_chars(m)),
            WrapError::SubinvocationError { uri, method, cause } => {
                let c: &WrapError = cause;
                WrapError::SubinvocationError {
                    uri: uri.clone(),
                    method: clone_chars(method),
                    cause: Box::new(c.clone()),
                }
            },
            WrapError::NotFound => WrapError::NotFound,
        }
    }
}

} // verus!
