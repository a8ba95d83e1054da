//! Handlers: the capability "given a path, produce a response".
//!
//! The unit value is the handler for unmatched routes; it answers 404 and
//! names the path. Any function from a path to a boxed response-producing
//! value becomes a handler through `FnHandler`.

use crate::response::{IntoResponse, Response, ResponseView};
use vstd::prelude::*;
use vstd::string::StringExecFns;

verus! {

/// Something that answers requests for a path.
pub trait Handler: Send + Sync {
    /// Whether `response` is an answer this handler may give for `url`. An
    /// implementation that states nothing admits every response.
    open spec fn produces(&self, url: Seq<char>, response: Response) -> bool {
        true
    }

    fn handle(&self, url: &str) -> (response: Response)
        ensures
            self.produces(url@, response),
    ;
}

/// The answer for a path that no route matches: status 404 and a body that
/// names the path.
pub open spec fn not_found(url: Seq<char>) -> ResponseView {
    ResponseView { status: 404, body: "404 not found: "@ + url }
}

/// The not-found answer has status 404, and its body ends with the path it
/// was asked for, after a fixed prefix of 15 characters.
pub proof fn lemma_not_found_names_path(url: Seq<char>)
    ensures
        not_found(url).status == 404,
        not_found(url).body.len() == 15 + url.len(),
        not_found(url).body.skip(15) == url,
{
    reveal_strlit("404 not found: ");
    assert(not_found(url).body.skip(15) =~= url);
}

/// The handler for unmatched routes.
impl Handler for () {
    open spec fn produces(&self, url: Seq<char>, response: Response) -> bool {
        response@ == not_found(url)
    }

    fn handle(&self, url: &str) -> (response: Response) {
        let mut body = String::from_str("404 not found: ");
        body.append(url);
        Response { status: 404, body }
    }
}

/// A handler made of a function that can be called on every path.
pub struct FnHandler<F> where
    for<'a> F: Fn(&'a str) -> Box<dyn IntoResponse> + Send + Sync + 'static,
{
    function: F,
}

impl<F> FnHandler<F> where
    for<'a> F: Fn(&'a str) -> Box<dyn IntoResponse> + Send + Sync + 'static,
{
    #[verifier::type_invariant]
    spec fn callable(self) -> bool {
        forall|url: &str| call_requires(self.function, (url,))
    }

    /// The function this handler calls.
    pub closed spec fn function(self) -> F {
        self.function
    }

    /// Wraps `function` as a handler. The function has to accept every path:
    /// the server calls it with whatever path a request names.
    pub fn new(function: F) -> (handler: Self)
        requires
            forall|url: &str| call_requires(function, (url,)),
        ensures
            handler.function() == function,
    {
        FnHandler { function }
    }
}

/// The handler answers with a response that the value its function returns
/// for the path turns into: the function is called once, with the path as
/// it was asked for.
impl<F> Handler for FnHandler<F> where
    for<'a> F: Fn(&'a str) -> Box<dyn IntoResponse> + Send + Sync + 'static,
{
    fn handle(&self, url: &str) -> (response: Response) {
        proof {
            use_type_invariant(self);
        }
        let returned = (self.function)(url);
        let response = returned.into_response();
        assert(function_returns(returned, self.function(), url) && returned.yields(response));
        response
    }

    open spec fn produces(&self, url: Seq<char>, response: Response) -> bool {
        exists|path: &str, returned: Box<dyn IntoResponse>|
            path@ == url && #[trigger] function_returns(returned, self.function(), path)
                && returned.yields(response)
    }
}

/// Whether `returned` is a value that `function` may return when called
/// with `url`.
pub open spec fn function_returns<R, F>(returned: R, function: F, url: &str) -> bool where
    for<'a> F: Fn(&'a str) -> R,
{
    call_ensures(function, (url,), returned)
}

} // verus!
