use vstd::prelude::*;

verus! {

/// The kind of failure that an operation reports.
#[derive(Debug, Clone, Copy, PartialEq, Eq, Structural)]
pub enum Kind {
    ValueError,
    TypeError,
    OverflowError,
    ParseIntError,
    IteratorError,
    NoError,
}

/// The contents of an error: its kind and an optional message.
#[derive(Debug)]
pub struct Inner {
    kind: Kind,
    pub(crate) message: Option<String>,
}

/// A failure returned as a value: a kind and an optional human-readable message.
#[derive(Debug)]
pub struct Error {
    pub(crate) inner: Box<Inner>,
}

/// The message of an error as characters, if it has one.
pub open spec fn message_view(m: Option<String>) -> Option<Seq<char>> {
    match m {
        Option::Some(s) => Option::Some(s@),
        Option::None => Option::None,
    }
}

impl View for Error {
    type V = (Kind, Option<Seq<char>>);

    closed spec fn view(&self) -> (Kind, Option<Seq<char>>) {
        (self.inner.kind, message_view(self.inner.message))
    }
}

impl Error {
    pub fn new(kind: Kind, message: Option<String>) -> (r: Error)
        ensures
            r@ == (kind, message_view(message)),
    {
        Error { inner: Box::new(Inner { kind, message }) }
    }

    pub fn kind(&self) -> (r: Kind)
        ensures
            r == self@.0,
    {
        self.inner.kind
    }

    pub fn message(&self) -> (r: Option<&String>)
        ensures
            r matches Option::Some(s) ==> self@.1 == Option::Some(s@),
            r is None <==> self@.1 is None,
    {
        self.inner.message.as_ref()
    }

    pub fn message_mut(&mut self) -> (r: Option<&mut String>)
        ensures
            r is None <==> old(self)@.1 is None,
            r is None ==> final(self)@ == old(self)@,
            r matches Option::Some(m) ==> old(self)@.1 == Option::Some((*m)@) && final(self)@
                == (old(self)@.0, Option::Some((*final(m))@)),
            final(self)@.0 == old(self)@.0,
    {
        self.inner.message.as_mut()
    }
}

impl Clone for Error {
    fn clone(&self) -> (r: Error)
        ensures
            r@ == self@,
    {
        let message = match &self.inner.message {
            Option::Some(m) => Option::Some(m.clone()),
            Option::None => Option::None,
        };
        Error::new(self.inner.kind, message)
    }
}

impl PartialEq for Error {
    fn eq(&self, other: &Error) -> (r: bool)
        ensures
            r == (self@ == other@),
    {
        if self.inner.kind != other.inner.kind {
            return false;
        }
        match (&self.inner.message, &other.inner.message) {
            (Option::None, Option::None) => true,
            (Option::Some(a), Option::Some(b)) => a.eq(b),
            _ => false,
        }
    }
}

impl vstd::std_specs::cmp::PartialEqSpecImpl for Error {
    open spec fn obeys_eq_spec() -> bool {
        true
    }

    open spec fn eq_spec(&self, other: &Error) -> bool {
        self@ == other@
    }
}

/// An error of kind `ValueError` with the given message.
pub fn value_error(e: String) -> (r: Error)
    ensures
        r@ == (Kind::ValueError, Option::Some(e@)),
{
    Error::new(Kind::ValueError, Option::Some(e))
}

/// An error of kind `OverflowError` with the given message.
pub fn overflow_error(e: String) -> (r: Error)
    ensures
        r@ == (Kind::OverflowError, Option::Some(e@)),
{
    Error::new(Kind::OverflowError, Option::Some(e))
}

/// An error of any kind with the given message.
pub fn any_error(kind: Kind, e: String) -> (r: Error)
    ensures
        r@ == (kind, Option::Some(e@)),
{
    Error::new(kind, Option::Some(e))
}

} // verus!
