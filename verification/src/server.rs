//! The server: a route table from (path, method) to a handler, the size of
//! its worker pool, and the processing of one request from its header block
//! to the text that goes back over the wire.
//!
//! Routing is by exact path. A request that matches no route is answered by
//! the not-found handler through the same formatting path as any other.

use crate::handler::{not_found, Handler};
use crate::request::{RequestError, RequestHead, RequestType};
use crate::response::{format_response, wire_format, Response};
use crate::text::{decimal, push_decimal, same_text};
use vstd::prelude::*;
use vstd::string::StringExecFns;

verus! {

/// One entry of the route table: a handler and the key it is registered under.
pub struct Route {
    pub path: String,
    pub method: RequestType,
    pub handler: Box<dyn Handler>,
}

/// A route table with a worker pool size. At most one handler is registered
/// under a key; a later registration under the same key replaces the earlier.
pub struct Server {
    routes: Vec<Route>,
    thread_pool: usize,
}

/// The key of a route: its path and its method.
pub type RouteKey = (Seq<char>, RequestType);

/// The route table as a map from key to entry.
pub type RouteTable = Map<RouteKey, Route>;

/// `handler` as the route table keeps it.
pub open spec fn boxed_handler<H: Handler + 'static>(handler: H) -> Box<dyn Handler> {
    Box::new(handler)
}

/// Whether `after` is `before` with `handler` registered under `key`: the key
/// now leads to an entry that holds the key and `handler`, and every other
/// key leads where it led before.
pub open spec fn registered<H: Handler + 'static>(
    before: RouteTable,
    after: RouteTable,
    key: RouteKey,
    handler: H,
) -> bool {
    &&& after.dom() == before.dom().insert(key)
    &&& after[key].key() == key
    &&& after[key].handler == boxed_handler(handler)
    &&& forall|other: RouteKey|
        other != key && before.contains_key(other) ==> #[trigger] after[other] == before[other]
}

/// Whether `response` is an answer of `table` to a request for (`path`,
/// `method`): one that the registered handler produces for the path, or,
/// without a registered handler, the not-found answer.
pub open spec fn answers(
    table: RouteTable,
    method: RequestType,
    path: Seq<char>,
    response: Response,
) -> bool {
    if table.contains_key((path, method)) {
        table[(path, method)].handler.produces(path, response)
    } else {
        response@ == not_found(path)
    }
}

/// Whether `text` is what goes over the wire for `request`: the wire format
/// of an answer of `table` to it.
pub open spec fn serves(
    table: RouteTable,
    request: (RequestType, Seq<char>),
    text: Seq<char>,
) -> bool {
    exists|response: Response| #[trigger]
        answers(table, request.0, request.1, response) && text == wire_format(response@)
}

/// The address to listen on: host, colon, port in decimal.
pub open spec fn address(host: Seq<char>, port: u16) -> Seq<char> {
    host + ":"@ + decimal(port as nat)
}

/// A registered handler is found under its key until a later registration
/// under the same key replaces it; a registration under another key leaves
/// it in place.
pub proof fn lemma_registered_handler_is_found<H: Handler + 'static, L: Handler + 'static>(
    initial: RouteTable,
    first: RouteTable,
    second: RouteTable,
    key: RouteKey,
    handler: H,
    later_key: RouteKey,
    later: L,
)
    requires
        registered(initial, first, key, handler),
        registered(first, second, later_key, later),
    ensures
        first.contains_key(key),
        first[key].handler == boxed_handler(handler),
        second.contains_key(key),
        later_key != key ==> second[key].handler == boxed_handler(handler),
        later_key == key ==> second[key].handler == boxed_handler(later),
{
}

/// A registration changes nothing about the keys it does not name: a key
/// that was unregistered stays so, and a registered one keeps its entry.
pub proof fn lemma_other_routes_untouched<H: Handler + 'static>(
    before: RouteTable,
    after: RouteTable,
    key: RouteKey,
    handler: H,
    other: RouteKey,
)
    requires
        registered(before, after, key, handler),
        other != key,
    ensures
        after.contains_key(other) == before.contains_key(other),
        before.contains_key(other) ==> after[other] == before[other],
{
}

impl Route {
    /// The key this entry is registered under.
    pub open spec fn key(self) -> RouteKey {
        (self.path@, self.method)
    }

    fn new<H: Handler + 'static>(path: String, method: RequestType, handler: H) -> (route: Route)
        ensures
            route.path == path,
            route.method == method,
            route.handler == boxed_handler(handler),
    {
        let boxed: Box<dyn Handler> = Box::new(handler);
        Route { path, method, handler: boxed }
    }
}

/// No two entries share a key.
spec fn distinct_keys(routes: Seq<Route>) -> bool {
    forall|i: int, j: int|
        0 <= i < j < routes.len() ==> (#[trigger] routes[i]).key() != (#[trigger] routes[j]).key()
}

/// Whether some entry has the key `key`.
spec fn has_key(routes: Seq<Route>, key: RouteKey) -> bool {
    exists|i: int| 0 <= i < routes.len() && (#[trigger] routes[i]).key() == key
}

/// The position of an entry with the key `key`, if there is one.
spec fn index_of(routes: Seq<Route>, key: RouteKey) -> int {
    choose|i: int| 0 <= i < routes.len() && (#[trigger] routes[i]).key() == key
}

/// The entries as a map from key to entry.
spec fn table_of(routes: Seq<Route>) -> RouteTable {
    Map::new(
        |key: RouteKey| has_key(routes, key),
        |key: RouteKey| routes[index_of(routes, key)],
    )
}

/// With distinct keys, the map holds each entry under its key.
proof fn lemma_entry(routes: Seq<Route>, i: int)
    requires
        distinct_keys(routes),
        0 <= i < routes.len(),
    ensures
        table_of(routes).contains_key(routes[i].key()),
        table_of(routes)[routes[i].key()] == routes[i],
{
    let key = routes[i].key();
    assert(has_key(routes, key));
    let j = index_of(routes, key);
    assert(0 <= j < routes.len() && routes[j].key() == key);
    assert(j == i);
}

impl Server {
    #[verifier::type_invariant]
    spec fn well_formed(self) -> bool {
        self.thread_pool > 0 && distinct_keys(self.routes@)
    }

    /// The route table.
    pub closed spec fn routes(&self) -> RouteTable {
        table_of(self.routes@)
    }

    /// The number of workers the server runs with.
    pub closed spec fn workers(&self) -> usize {
        self.thread_pool
    }

    /// A server with `thread_pool` workers and no routes.
    pub fn new(thread_pool: usize) -> (server: Server)
        requires
            thread_pool > 0,
        ensures
            server.routes() == Map::<RouteKey, Route>::empty(),
            server.workers() == thread_pool,
    {
        let server = Server { routes: Vec::new(), thread_pool };
        assert(server.routes() =~= Map::<RouteKey, Route>::empty());
        server
    }

    /// The number of workers the server runs with.
    pub fn thread_pool(&self) -> (workers: usize)
        ensures
            workers == self.workers(),
            workers > 0,
    {
        proof {
            use_type_invariant(self);
        }
        self.thread_pool
    }

    /// The position of the entry registered under (`path`, `method`).
    fn find(&self, path: &str, method: RequestType) -> (found: Option<usize>)
        ensures
            match found {
                Some(i) => i < self.routes.len() && self.routes[i as int].key() == (path@, method),
                None => !has_key(self.routes@, (path@, method)),
            },
    {
        let mut i: usize = 0;
        while i < self.routes.len()
            invariant
                i <= self.routes.len(),
                forall|j: int| 0 <= j < i ==> (#[trigger] self.routes[j]).key() != (path@, method),
            decreases self.routes.len() - i,
        {
            if self.routes[i].method == method && same_text(self.routes[i].path.as_str(), path) {
                return Some(i);
            }
            i += 1;
        }
        None
    }

    /// Registers `handler` under (`path`, `req_type`), replacing the handler
    /// registered there before, if any. Other routes are untouched.
    pub fn add_path<H: Handler + 'static>(&mut self, path: &str, handler: H, req_type: RequestType)
        ensures
            registered(old(self).routes(), final(self).routes(), (path@, req_type), handler),
            final(self).workers() == old(self).workers(),
    {
        proof {
            use_type_invariant(&*self);
        }
        let found = self.find(path, req_type);
        let route = Route::new(path.to_owned(), req_type, handler);
        let ghost key = (path@, req_type);
        let ghost before = self.routes@;

        // The entries are changed outside of `self`, which holds an empty
        // table in the meantime, so that `self` is well formed throughout.
        let mut taken = Server { routes: Vec::new(), thread_pool: self.thread_pool };
        core::mem::swap(self, &mut taken);
        let thread_pool = taken.thread_pool;
        let mut routes = taken.routes;
        if found.is_some() {
            routes.set(found.unwrap(), route);
        } else {
            routes.push(route);
        }
        proof {
            let after = routes@;
            let at: int = match found {
                Some(at) => at as int,
                None => before.len() as int,
            };
            assert(after[at] == route);
            assert forall|i: int| 0 <= i < after.len() && i != at implies after[i] == before[i]
                && before[i].key() != key by {
                if found is Some {
                    assert(before[at].key() == key);
                }
            }
            assert(distinct_keys(after));
            lemma_entry(after, at);
            assert forall|other: RouteKey| other != key implies has_key(after, other) == has_key(
                before,
                other,
            ) && (has_key(before, other) ==> table_of(after)[other] == table_of(before)[other]) by {
                if has_key(before, other) {
                    let k = index_of(before, other);
                    assert(before[k].key() == other);
                    assert(after[k] == before[k]);
                    lemma_entry(before, k);
                    lemma_entry(after, k);
                }
                if has_key(after, other) {
                    let k = index_of(after, other);
                    assert(after[k].key() == other);
                    assert(before[k] == after[k]);
                }
            }
            assert(table_of(after).dom() =~= table_of(before).dom().insert(key));
        }
        *self = Server { routes, thread_pool };
    }

    /// The handler registered under (`path`, `method`), if there is one.
    pub fn lookup(&self, path: &str, method: RequestType) -> (found: Option<&Box<dyn Handler>>)
        ensures
            match found {
                Some(handler) => self.routes().contains_key((path@, method)) && self.routes()[(
                    path@,
                    method,
                )].handler == *handler,
                None => !self.routes().contains_key((path@, method)),
            },
    {
        proof {
            use_type_invariant(self);
        }
        match self.find(path, method) {
            Some(i) => {
                proof {
                    lemma_entry(self.routes@, i as int);
                }
                Some(&self.routes[i].handler)
            },
            None => None,
        }
    }

    /// Answers a request for (`path`, `method`): the registered handler is
    /// called with the path, or the not-found handler if none is registered.
    pub fn respond(&self, path: &str, method: RequestType) -> (response: Response)
        ensures
            answers(self.routes(), method, path@, response),
            !self.routes().contains_key((path@, method)) ==> response@ == not_found(path@),
    {
        match self.lookup(path, method) {
            Some(handler) => handler.handle(path),
            None => ().handle(path),
        }
    }

    /// Processes one request: parses the collected head, routes it, and
    /// formats the answer for the wire. A malformed request gets no response:
    /// the error says why, and nothing is to be written.
    pub fn handle_request(&self, head: &RequestHead) -> (written: Result<String, RequestError>)
        ensures
            match head@.request() {
                Ok(request) => written is Ok && serves(self.routes(), request, written->Ok_0@),
                Err(error) => written is Err && written->Err_0 == error,
            },
    {
        match head.parse() {
            Ok(request) => {
                let response = self.respond(request.path.as_str(), request.method);
                let ghost answer = response;
                let text = format_response(response);
                assert(answers(self.routes(), request@.0, request@.1, answer) && text@
                    == wire_format(answer@));
                Ok(text)
            },
            Err(error) => Err(error),
        }
    }
}

/// The address to bind the listener to.
pub fn bind_address(host: &str, port: u16) -> (text: String)
    ensures
        text@ == address(host@, port),
{
    let mut text = String::from_str(host);
    text.append(":");
    push_decimal(&mut text, port as usize);
    text
}

} // verus!
