use vstd::prelude::*;

use crate::responses::{raw_response, HttpResponse};

verus! {

/// The request verbs that routes can be registered under.
#[derive(PartialEq, Eq, Structural, Clone, Copy, Debug, Hash)]
pub enum Method {
    GET,
    POST,
    PUT,
    DELETE,
}

/// The verb that a request token names, if it names one. Tokens are
/// matched exactly: no case folding, no trimming.
pub open spec fn method_of(token: Seq<char>) -> Option<Method> {
    if token == "GET"@ {
        Some(Method::GET)
    } else if token == "POST"@ {
        Some(Method::POST)
    } else if token == "PUT"@ {
        Some(Method::PUT)
    } else if token == "DELETE"@ {
        Some(Method::DELETE)
    } else {
        None
    }
}

impl Method {
    pub fn from_str(m: &str) -> (r: Option<Self>)
        ensures
            r == method_of(m@),
    {
        let token = m.to_owned();
        if token == "GET".to_owned() {
            Some(Method::GET)
        } else if token == "POST".to_owned() {
            Some(Method::POST)
        } else if token == "PUT".to_owned() {
            Some(Method::PUT)
        } else if token == "DELETE".to_owned() {
            Some(Method::DELETE)
        } else {
            None
        }
    }
}

/// A handler together with the verb it answers.
pub struct Route<H> {
    pub method: Method,
    pub handler: H,
}

/// A route answering GET requests.
pub fn get<H>(handler: H) -> (r: Route<H>)
    ensures
        r.method == Method::GET,
        r.handler == handler,
{
    Route { method: Method::GET, handler }
}

/// A route answering POST requests.
pub fn post<H>(handler: H) -> (r: Route<H>)
    ensures
        r.method == Method::POST,
        r.handler == handler,
{
    Route { method: Method::POST, handler }
}

/// `out` is a possible result of `layer` applied to `inner`.
pub open spec fn wraps<H, L: Fn(H) -> H>(layer: L, inner: H, out: H) -> bool {
    call_ensures(layer, (inner,), out)
}

/// `chain` records the wrapping of `core` in `layers`: `chain[i]` is what
/// `layers[i]` returned on `chain[i + 1]`, and the last entry is `core`.
pub open spec fn wrapping_chain<H, L: Fn(H) -> H>(layers: Seq<L>, core: H, chain: Seq<H>) -> bool {
    &&& chain.len() == layers.len() + 1
    &&& chain[layers.len() as int] == core
    &&& forall|i: int| 0 <= i < layers.len() ==> #[trigger] wraps(layers[i], chain[i + 1], chain[i])
}

/// `out` is a possible result of wrapping `core` in `layers`, the first
/// layer outermost: `layers[0](layers[1](... layers[n-1](core)))`.
pub open spec fn layered<H, L: Fn(H) -> H>(layers: Seq<L>, core: H, out: H) -> bool {
    exists|chain: Seq<H>| #[trigger] wrapping_chain(layers, core, chain) && chain[0] == out
}

struct Entry<H> {
    path: String,
    method: Method,
    handler: H,
}

spec fn key_of<H>(e: Entry<H>) -> (Seq<char>, Method) {
    (e.path@, e.method)
}

/// The map that a sequence of entries with unique keys stands for.
spec fn table<H>(entries: Seq<Entry<H>>) -> Map<(Seq<char>, Method), H> {
    Map::new(
        |k: (Seq<char>, Method)| exists|i: int| 0 <= i < entries.len() && key_of(entries[i]) == k,
        |k: (Seq<char>, Method)|
            entries[choose|i: int| 0 <= i < entries.len() && key_of(entries[i]) == k].handler,
    )
}

spec fn unique_keys<H>(entries: Seq<Entry<H>>) -> bool {
    forall|i: int, j: int|
        0 <= i < j < entries.len() ==> key_of(entries[i]) != key_of(entries[j])
}

proof fn lemma_table_at<H>(entries: Seq<Entry<H>>, i: int)
    requires
        unique_keys(entries),
        0 <= i < entries.len(),
    ensures
        table(entries).contains_key(key_of(entries[i])),
        table(entries)[key_of(entries[i])] == entries[i].handler,
{
    let k = key_of(entries[i]);
    assert(0 <= i < entries.len() && key_of(entries[i]) == k);
    let c = choose|j: int| 0 <= j < entries.len() && key_of(entries[j]) == k;
    assert(c == i) by {
        if c < i {
        } else if i < c {
        }
    }
}

proof fn lemma_table_update<H>(entries: Seq<Entry<H>>, i: int, e: Entry<H>)
    requires
        unique_keys(entries),
        0 <= i < entries.len(),
        key_of(e) == key_of(entries[i]),
    ensures
        unique_keys(entries.update(i, e)),
        table(entries.update(i, e)) =~= table(entries).insert(key_of(e), e.handler),
{
    let new = entries.update(i, e);
    assert forall|j: int| 0 <= j < new.len() implies key_of(new[j]) == key_of(entries[j]) by {}
    assert forall|k: (Seq<char>, Method)| #[trigger] table(new).contains_key(k) implies table(
        entries,
    ).insert(key_of(e), e.handler).contains_key(k) && table(new)[k] == table(entries).insert(
        key_of(e),
        e.handler,
    )[k] by {
        let j = choose|j: int| 0 <= j < new.len() && key_of(new[j]) == k;
        lemma_table_at(new, j);
        lemma_table_at(entries, j);
        lemma_table_at(new, i);
    }
    assert forall|k: (Seq<char>, Method)| #[trigger] table(entries).insert(
        key_of(e),
        e.handler,
    ).contains_key(k) implies table(new).contains_key(k) by {
        if k == key_of(e) {
            lemma_table_at(new, i);
        } else {
            let j = choose|j: int| 0 <= j < entries.len() && key_of(entries[j]) == k;
            lemma_table_at(new, j);
        }
    }
}

proof fn lemma_table_push<H>(entries: Seq<Entry<H>>, e: Entry<H>)
    requires
        unique_keys(entries),
        !table(entries).contains_key(key_of(e)),
    ensures
        unique_keys(entries.push(e)),
        table(entries.push(e)) =~= table(entries).insert(key_of(e), e.handler),
{
    let new = entries.push(e);
    assert forall|j: int| 0 <= j < entries.len() implies key_of(entries[j]) != key_of(e) by {
        if key_of(entries[j]) == key_of(e) {
            lemma_table_at(entries, j);
        }
    }
    assert forall|j: int| 0 <= j < entries.len() implies new[j] == entries[j] by {}
    assert forall|k: (Seq<char>, Method)| #[trigger] table(new).contains_key(k) implies table(
        entries,
    ).insert(key_of(e), e.handler).contains_key(k) && table(new)[k] == table(entries).insert(
        key_of(e),
        e.handler,
    )[k] by {
        let j = choose|j: int| 0 <= j < new.len() && key_of(new[j]) == k;
        lemma_table_at(new, j);
        if j < entries.len() {
            lemma_table_at(entries, j);
        }
    }
    assert forall|k: (Seq<char>, Method)| #[trigger] table(entries).insert(
        key_of(e),
        e.handler,
    ).contains_key(k) implies table(new).contains_key(k) by {
        if k == key_of(e) {
            lemma_table_at(new, entries.len() as int);
        } else {
            let j = choose|j: int| 0 <= j < entries.len() && key_of(entries[j]) == k;
            lemma_table_at(new, j);
        }
    }
}

/// A route table keyed by exact path and verb, and the ordered layers
/// that wrap each handler registered after them.
pub struct Router<H, L> {
    routes: Vec<Entry<H>>,
    layers: Vec<L>,
}

impl<H, L: Fn(H) -> H> Router<H, L> {
    /// The handler stored under each (path, verb) key.
    pub closed spec fn routes(&self) -> Map<(Seq<char>, Method), H> {
        table(self.routes@)
    }

    /// The layers, in the order they were registered.
    pub closed spec fn layers(&self) -> Seq<L> {
        self.layers@
    }

    closed spec fn key_at(&self, i: int) -> (Seq<char>, Method) {
        key_of(self.routes@[i])
    }

    /// Keys are unique, and every layer accepts every handler.
    pub closed spec fn wf(&self) -> bool {
        &&& unique_keys(self.routes@)
        &&& forall|i: int, h: H| 0 <= i < self.layers.len() ==> call_requires(self.layers[i], (h,))
    }

    pub fn new() -> (r: Self)
        ensures
            r.wf(),
            r.routes() == Map::<(Seq<char>, Method), H>::empty(),
            r.layers() == Seq::<L>::empty(),
    {
        let r = Router { routes: Vec::new(), layers: Vec::new() };
        assert(r.routes() =~= Map::<(Seq<char>, Method), H>::empty());
        r
    }

    /// Appends a layer; it wraps only the routes registered after it.
    pub fn register_layer(self, layer: L) -> (r: Self)
        requires
            self.wf(),
            forall|h: H| call_requires(layer, (h,)),
        ensures
            r.wf(),
            r.routes() == self.routes(),
            r.layers() == self.layers().push(layer),
    {
        let mut r = self;
        r.layers.push(layer);
        r
    }

    /// The index of the entry under `(path, method)`, if there is one.
    fn find(&self, path: &String, method: Method) -> (r: Option<usize>)
        requires
            self.wf(),
        ensures
            match r {
                Some(i) => i < self.routes.len() && self.key_at(i as int) == (path@, method),
                None => !self.routes().contains_key((path@, method)),
            },
    {
        let mut i: usize = 0;
        while i < self.routes.len()
            invariant
                i <= self.routes.len(),
                forall|j: int| 0 <= j < i ==> self.key_at(j) != (path@, method),
            decreases self.routes.len() - i,
        {
            if self.routes[i].method == method && self.routes[i].path == *path {
                return Some(i);
            }
            i = i + 1;
        }
        proof {
            if self.routes().contains_key((path@, method)) {
                let j = choose|j: int| 0 <= j < self.routes.len() && key_of(self.routes@[j]) == (path@, method);
                assert(self.key_at(j) == (path@, method));
            }
        }
        None
    }

    /// Stores `route`'s handler, wrapped in every layer registered so far
    /// (the first one outermost), under `(path, route.method)`, replacing
    /// any handler stored there before.
    pub fn route(self, path: &str, route: Route<H>) -> (r: Self)
        requires
            self.wf(),
        ensures
            r.wf(),
            registered(self.routes(), self.layers(), path@, route.method, route.handler, r.routes()),
            r.layers() == self.layers(),
    {
        let mut wrapped = route.handler;
        let mut k: usize = self.layers.len();
        let ghost mut chain: Seq<H> = seq![wrapped];
        while k > 0
            invariant
                k <= self.layers.len(),
                self.wf(),
                wrapping_chain(self.layers@.subrange(k as int, self.layers.len() as int), route.handler, chain),
                chain[0] == wrapped,
            decreases k,
        {
            k = k - 1;
            let ghost old_chain = chain;
            wrapped = (self.layers[k])(wrapped);
            proof {
                chain = seq![wrapped] + old_chain;
                let s = self.layers@.subrange(k as int, self.layers.len() as int);
                let t = self.layers@.subrange(k + 1, self.layers.len() as int);
                assert(s.len() == t.len() + 1);
                assert forall|i: int| 0 <= i < s.len() implies #[trigger] wraps(s[i], chain[i + 1], chain[i]) by {
                    if i > 0 {
                        assert(s[i] == t[i - 1]);
                        let j = i - 1;
                        assert(wraps(t[j], old_chain[j + 1], old_chain[j]));
                        assert(chain[i + 1] == old_chain[j + 1]);
                    }
                }
            }
        }
        assert(self.layers@.subrange(0, self.layers.len() as int) =~= self.layers@);
        let key = path.to_owned();
        let method = route.method;
        let found = self.find(&key, method);
        let mut r = self;
        match found {
            Some(i) => {
                let ghost before = r.routes@;
                let e = Entry { path: key, method, handler: wrapped };
                proof {
                    lemma_table_update(before, i as int, e);
                }
                r.routes.set(i, e);
            },
            None => {
                let ghost before = r.routes@;
                let e = Entry { path: key, method, handler: wrapped };
                proof {
                    lemma_table_push(before, e);
                }
                r.routes.push(e);
            },
        }
        assert(r.layers() == self.layers());
        r
    }

    /// The handler stored under `(path, method)`; exact match only.
    pub fn dispatch(&self, path: &str, method: Method) -> (r: Option<&H>)
        requires
            self.wf(),
        ensures
            r == (if self.routes().contains_key((path@, method)) {
                Some(&self.routes()[(path@, method)])
            } else {
                None
            }),
    {
        let key = path.to_owned();
        match self.find(&key, method) {
            Some(i) => {
                proof {
                    lemma_table_at(self.routes@, i as int);
                }
                Some(&self.routes[i].handler)
            },
            None => None,
        }
    }

    /// The handler for `(req_path, method)`, or the 404 response.
    pub fn handle(&self, req_path: &str, method: Method) -> (r: Action<'_, H>)
        requires
            self.wf(),
        ensures
            handled(self, req_path@, method, r),
    {
        match self.dispatch(req_path, method) {
            Some(h) => Action::Invoke(h),
            None => Action::Respond(HttpResponse::not_found()),
        }
    }
}

/// What to do with a request: run a handler, or write a fixed response.
pub enum Action<'a, H> {
    Invoke(&'a H),
    Respond(String),
}

/// The action for a request on `(path, method)`: the handler stored
/// there, or the 404 response.
pub open spec fn handled<'a, H, L: Fn(H) -> H>(
    router: &'a Router<H, L>,
    path: Seq<char>,
    method: Method,
    r: Action<'a, H>,
) -> bool {
    if router.routes().contains_key((path, method)) {
        r == Action::Invoke(&router.routes()[(path, method)])
    } else {
        r matches Action::Respond(s) && s@ == raw_response(404, "text/plain"@, "404 Not Found"@)
    }
}

/// `after` is `before` with the key `(path, method)` bound to `handler`
/// wrapped in `layers`, and every other key unchanged.
pub open spec fn registered<H, L: Fn(H) -> H>(
    before: Map<(Seq<char>, Method), H>,
    layers: Seq<L>,
    path: Seq<char>,
    method: Method,
    handler: H,
    after: Map<(Seq<char>, Method), H>,
) -> bool {
    &&& after.contains_key((path, method))
    &&& after == before.insert((path, method), after[(path, method)])
    &&& layered(layers, handler, after[(path, method)])
}

} // verus!

verus! {

/// Registering a second handler under a key that already has one
/// replaces it: the key then holds the second handler, wrapped in the
/// layers, and exactly the handler itself when there are no layers.
pub proof fn lemma_last_registration_wins<H, L: Fn(H) -> H>(
    r0: Router<H, L>,
    r1: Router<H, L>,
    r2: Router<H, L>,
    path: Seq<char>,
    method: Method,
    first: H,
    second: H,
)
    requires
        registered(r0.routes(), r0.layers(), path, method, first, r1.routes()),
        r1.layers() == r0.layers(),
        registered(r1.routes(), r1.layers(), path, method, second, r2.routes()),
    ensures
        r2.routes().contains_key((path, method)),
        r2.routes().dom() == r0.routes().dom().insert((path, method)),
        layered(r0.layers(), second, r2.routes()[(path, method)]),
        r0.layers().len() == 0 ==> r2.routes()[(path, method)] == second,
{
    assert(r2.routes().dom() =~= r0.routes().dom().insert((path, method)));
    if r0.layers().len() == 0 {
        let chain = choose|chain: Seq<H>|
            #[trigger] wrapping_chain(r1.layers(), second, chain) && chain[0] == r2.routes()[(
                path,
                method,
            )];
        assert(chain[0] == second);
    }
}

/// Layers nest in the order they were registered: with `l1` registered
/// before `l2`, a handler registered afterwards is wrapped first by `l2`
/// and then by `l1`, so `l1` sees a request first and its response last.
pub proof fn lemma_onion_order<H, L: Fn(H) -> H>(
    r0: Router<H, L>,
    r1: Router<H, L>,
    r2: Router<H, L>,
    r3: Router<H, L>,
    l1: L,
    l2: L,
    path: Seq<char>,
    method: Method,
    handler: H,
)
    requires
        r0.layers() == Seq::<L>::empty(),
        r1.layers() == r0.layers().push(l1),
        r2.layers() == r1.layers().push(l2),
        registered(r2.routes(), r2.layers(), path, method, handler, r3.routes()),
    ensures
        exists|mid: H| wraps(l2, handler, mid) && wraps(l1, mid, r3.routes()[(path, method)]),
{
    let layers = r2.layers();
    assert(layers =~= seq![l1, l2]);
    let chain = choose|chain: Seq<H>|
        #[trigger] wrapping_chain(layers, handler, chain) && chain[0] == r3.routes()[(path, method)];
    let i0: int = 0;
    let i1: int = 1;
    assert(wraps(layers[i0], chain[i0 + 1], chain[i0]));
    assert(wraps(layers[i1], chain[i1 + 1], chain[i1]));
    assert(wraps(l2, handler, chain[1]) && wraps(l1, chain[1], r3.routes()[(path, method)]));
}

} // verus!
