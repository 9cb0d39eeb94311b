//! Classified failures with progressively attached key-value context.
//!
//! Every operation of the facade reports failure as an [`Error`]: a kind out
//! of a closed taxonomy, a static message, and a list of context pairs that
//! layers append as the failure propagates outward. Layers may enrich or
//! reclassify a failure but never discard context that was already attached.

use vstd::prelude::*;

verus! {

/// The closed failure taxonomy of the facade.
#[derive(Clone, Copy, PartialEq, Eq, Structural, Debug)]
pub enum ErrorKind {
    /// The scheme is unknown or its backend is not compiled in, or the
    /// operation is not supported by the backend.
    Unsupported,
    /// A configuration key is missing or holds an invalid value.
    ConfigInvalid,
    /// The addressed entry does not exist.
    NotFound,
    /// The caller may not perform the operation.
    PermissionDenied,
    /// The entry already exists.
    AlreadyExists,
    /// A backend-internal failure not otherwise classified.
    Unexpected,
}

/// The mathematical model of an [`Error`]: kind, message and context pairs
/// as sequences of characters.
#[verifier::ext_equal]
pub struct ErrModel {
    pub kind: ErrorKind,
    pub message: Seq<char>,
    pub context: Seq<(Seq<char>, Seq<char>)>,
}

/// A classified failure together with its attached context.
#[derive(Debug)]
pub struct Error {
    kind: ErrorKind,
    message: String,
    context: Vec<(String, String)>,
}

/// The view of a list of context pairs: each pair as character sequences.
pub open spec fn ctx_view(c: Seq<(String, String)>) -> Seq<(Seq<char>, Seq<char>)> {
    c.map_values(|p: (String, String)| (p.0@, p.1@))
}

impl View for Error {
    type V = ErrModel;

    closed spec fn view(&self) -> ErrModel {
        ErrModel { kind: self.kind, message: self.message@, context: ctx_view(self.context@) }
    }
}

impl ErrModel {
    /// Whether this failure carries the context pair `(key, value)`.
    pub open spec fn has_context(self, key: Seq<char>, value: Seq<char>) -> bool {
        self.context.contains((key, value))
    }
}

impl Error {
    /// Create a fresh failure of the given kind with no context attached.
    pub fn new(kind: ErrorKind, message: &str) -> (e: Error)
        ensures
            e@.kind == kind,
            e@.message == message@,
            e@.context == Seq::<(Seq<char>, Seq<char>)>::empty(),
    {
        let e = Error { kind, message: message.to_owned(), context: Vec::new() };
        proof {
            assert(e@.context =~= Seq::<(Seq<char>, Seq<char>)>::empty());
        }
        e
    }

    /// Attach one more context pair; kind and message are untouched and the
    /// context already present is kept in place.
    pub fn with_context(self, key: &str, value: &str) -> (e: Error)
        ensures
            e@.kind == self@.kind,
            e@.message == self@.message,
            e@.context == self@.context.push((key@, value@)),
    {
        let mut context = self.context;
        context.push((key.to_owned(), value.to_owned()));
        let e = Error { kind: self.kind, message: self.message, context };
        proof {
            assert(e@.context =~= self@.context.push((key@, value@)));
        }
        e
    }

    /// Reclassify the failure: a new kind and message, with every context
    /// pair already attached kept in place.
    pub fn reclassified(self, kind: ErrorKind, message: &str) -> (e: Error)
        ensures
            e@.kind == kind,
            e@.message == message@,
            e@.context == self@.context,
    {
        Error { kind, message: message.to_owned(), context: self.context }
    }

    /// The kind this failure is classified as.
    pub fn kind(&self) -> (k: ErrorKind)
        ensures
            k == self@.kind,
    {
        self.kind
    }

    /// The message the failure was raised with.
    pub fn message(&self) -> (m: &str)
        ensures
            m@ == self@.message,
    {
        self.message.as_str()
    }

    /// The context pairs attached so far, innermost first.
    pub fn context(&self) -> (c: &Vec<(String, String)>)
        ensures
            ctx_view(c@) == self@.context,
    {
        &self.context
    }

    /// Whether some attached context pair has the given key and value.
    pub fn has_context(&self, key: &str, value: &str) -> (r: bool)
        ensures
            r == self@.has_context(key@, value@),
    {
        let mut i: usize = 0;
        while i < self.context.len()
            invariant
                i <= self.context.len(),
                forall|j: int| 0 <= j < i ==> self@.context[j] != (key@, value@),
            decreases self.context.len() - i,
        {
            let p = &self.context[i];
            if crate::strutil::str_eq(p.0.as_str(), key) && crate::strutil::str_eq(
                p.1.as_str(),
                value,
            ) {
                proof {
                    assert(self@.context[i as int] == (key@, value@));
                }
                return true;
            }
            proof {
                assert(self@.context[i as int] == (self.context@[i as int].0@,
                    self.context@[i as int].1@));
            }
            i = i + 1;
        }
        proof {
            assert(forall|j: int| 0 <= j < self@.context.len()
                ==> self@.context[j] != (key@, value@));
        }
        false
    }
}

} // verus!
