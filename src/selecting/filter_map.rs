use vstd::prelude::*;
use vstd::string::StringExecFns;

use crate::error::{any_error, Error};

verus! {

/// The message of a passed-on failure, from the message of the function's failure.
pub open spec fn failure_message(m: Option<Seq<char>>) -> Seq<char> {
    match m {
        Option::None => "func failed"@,
        Option::Some(t) => "func failed: "@ + t,
    }
}

/// How the function's result `res` on one element becomes what is produced, `r`: a
/// value is passed on as it is; a failure is passed on with the same kind and a
/// message that says the function failed, and marks the adaptor as failed.
pub open spec fn passes_on<T>(res: Result<T, Error>, r: Option<Result<T, Error>>, failed: bool) -> bool {
    match res {
        Result::Ok(v) => r == Option::Some(Result::<T, Error>::Ok(v)) && !failed,
        Result::Err(e) => (r matches Option::Some(Result::Err(e2)) && e2@ == (
            e@.0,
            Option::Some(failure_message(e@.1)),
        )) && failed,
    }
}

/// Applies a fallible function to each element of a source, stopping for good at
/// the first failure.
#[verifier::reject_recursive_types(S)]
#[verifier::reject_recursive_types(T)]
pub struct FilterMap<S, T, F: Fn(&S) -> Result<T, Error>> {
    source: Vec<S>,
    pos: usize,
    func: F,
    failed: bool,
}

impl<S, T, F: Fn(&S) -> Result<T, Error>> FilterMap<S, T, F> {
    /// The elements the function is applied to.
    pub closed spec fn source_seq(&self) -> Seq<S> {
        self.source@
    }

    /// How many elements have been taken from the source.
    pub closed spec fn consumed(&self) -> nat {
        self.pos as nat
    }

    /// The function applied to each element.
    pub closed spec fn function(&self) -> F {
        self.func
    }

    /// Whether the function has failed once.
    pub closed spec fn has_failed(&self) -> bool {
        self.failed
    }

    /// Whether no further element will be produced.
    pub open spec fn exhausted(&self) -> bool {
        self.has_failed() || self.consumed() == self.source_seq().len()
    }

    pub closed spec fn wf(&self) -> bool {
        &&& self.pos <= self.source@.len()
        &&& forall|x: &S| #[trigger] self.func.requires((x,))
    }

    /// Produces the function's result on the next element. After a failure, and once
    /// the source is used up, it produces nothing. A failure is passed on with the
    /// same kind and a message that says the function failed.
    pub fn next(&mut self) -> (r: Option<Result<T, Error>>)
        requires
            old(self).wf(),
        ensures
            final(self).wf(),
            final(self).source_seq() == old(self).source_seq(),
            final(self).function() == old(self).function(),
            old(self).exhausted() ==> r is None && *final(self) == *old(self),
            !old(self).exhausted() ==> {
                &&& final(self).consumed() == old(self).consumed() + 1
                &&& exists|res: Result<T, Error>|
                    #[trigger] old(self).function().ensures(
                        (&old(self).source_seq()[old(self).consumed() as int],),
                        res,
                    ) && passes_on(res, r, final(self).has_failed())
            },
    {
        if self.failed || self.pos >= self.source.len() {
            return Option::None;
        }
        let ghost x = self.source@[self.pos as int];
        let res = (self.func)(&self.source[self.pos]);
        let ghost g = res;
        assert(self.func.ensures((&x,), g));
        self.pos = self.pos + 1;
        let out = match res {
            Result::Ok(v) => Option::Some(Result::Ok(v)),
            Result::Err(e) => {
                self.failed = true;
                match e.message() {
                    Option::None => Option::Some(
                        Result::Err(any_error(e.kind(), "func failed".to_string())),
                    ),
                    Option::Some(m) => Option::Some(
                        Result::Err(any_error(e.kind(), "func failed: ".to_string().concat(m.as_str()))),
                    ),
                }
            },
        };
        assert(passes_on(g, out, self.failed));
        assert(old(self).function().ensures((&old(self).source_seq()[old(self).consumed() as int],), g));
        out
    }
}

/// Applies `func` lazily to each element of `iterable`, stopping at the first failure.
pub fn filter_map<S, T, F: Fn(&S) -> Result<T, Error>>(iterable: Vec<S>, func: F) -> (r: FilterMap<
    S,
    T,
    F,
>)
    requires
        forall|x: &S| #[trigger] func.requires((x,)),
    ensures
        r.wf(),
        r.source_seq() == iterable@,
        r.function() == func,
        r.consumed() == 0,
        !r.has_failed(),
{
    FilterMap { source: iterable, pos: 0, func, failed: false }
}

} // verus!
