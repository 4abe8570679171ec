//! What a script runs with: its request, shared state and request-scoped
//! values.

use std::sync::Arc;
use vstd::prelude::*;

use crate::assoc::StringMap;
use crate::bindings::RequestBinding;

verus! {

/// Context for script execution: the request, state shared between
/// requests, and values scoped to this request.
pub struct ScriptContext<V> {
    /// Request binding.
    pub request: RequestBinding,
    /// Shared state accessible to scripts.
    pub state: Arc<StringMap<V>>,
    /// Request-scoped data.
    pub locals: StringMap<V>,
}

impl<V> ScriptContext<V> {
    /// Create a new script context with no state and no locals.
    pub fn new(request: RequestBinding) -> (c: Self)
        ensures
            c.request == request,
            c.state@ == Map::<Seq<char>, V>::empty(),
            c.locals@ == Map::<Seq<char>, V>::empty(),
    {
        ScriptContext { request, state: Arc::new(StringMap::new()), locals: StringMap::new() }
    }

    /// Create context with shared state.
    pub fn with_state(request: RequestBinding, state: Arc<StringMap<V>>) -> (c: Self)
        ensures
            c.request == request,
            c.state == state,
            c.locals@ == Map::<Seq<char>, V>::empty(),
    {
        ScriptContext { request, state, locals: StringMap::new() }
    }

    /// Set a local value, replacing any earlier value of the key.
    pub fn set_local(&mut self, key: &str, value: V)
        ensures
            final(self).locals@ == old(self).locals@.insert(key@, value),
            final(self).request == old(self).request,
            final(self).state == old(self).state,
    {
        self.locals.insert(key.to_owned(), value);
    }

    /// Get a local value.
    pub fn get_local(&self, key: &str) -> (r: Option<&V>)
        ensures
            r == (if self.locals@.dom().contains(key@) { Some(&self.locals@[key@]) } else { None::<&V> }),
    {
        self.locals.get(key)
    }

    /// Get a state value.
    pub fn get_state(&self, key: &str) -> (r: Option<&V>)
        ensures
            r == (if self.state@.dom().contains(key@) { Some(&self.state@[key@]) } else { None::<&V> }),
    {
        (*self.state).get(key)
    }
}

/// Builder for creating script contexts.
pub struct ScriptContextBuilder<V> {
    request: Option<RequestBinding>,
    state: StringMap<V>,
    locals: StringMap<V>,
}

impl<V> Default for ScriptContextBuilder<V> {
    fn default() -> (b: Self)
        ensures
            b.request_spec() is None,
            b.state_spec() == Map::<Seq<char>, V>::empty(),
            b.locals_spec() == Map::<Seq<char>, V>::empty(),
    {
        Self::new()
    }
}

impl<V> ScriptContextBuilder<V> {
    /// The request set so far.
    pub closed spec fn request_spec(&self) -> Option<RequestBinding> {
        self.request
    }

    /// The state values added so far.
    pub closed spec fn state_spec(&self) -> Map<Seq<char>, V> {
        self.state@
    }

    /// The local values added so far.
    pub closed spec fn locals_spec(&self) -> Map<Seq<char>, V> {
        self.locals@
    }

    /// Create a new builder.
    pub fn new() -> (b: Self)
        ensures
            b.request_spec() is None,
            b.state_spec() == Map::<Seq<char>, V>::empty(),
            b.locals_spec() == Map::<Seq<char>, V>::empty(),
    {
        ScriptContextBuilder { request: None, state: StringMap::new(), locals: StringMap::new() }
    }

    /// Set the request.
    pub fn request(self, request: RequestBinding) -> (b: Self)
        ensures
            b.request_spec() == Some(request),
            b.state_spec() == self.state_spec(),
            b.locals_spec() == self.locals_spec(),
    {
        ScriptContextBuilder { request: Some(request), state: self.state, locals: self.locals }
    }

    /// Add a state value.
    pub fn state(self, key: &str, value: V) -> (b: Self)
        ensures
            b.request_spec() == self.request_spec(),
            b.state_spec() == self.state_spec().insert(key@, value),
            b.locals_spec() == self.locals_spec(),
    {
        let mut state = self.state;
        state.insert(key.to_owned(), value);
        ScriptContextBuilder { request: self.request, state, locals: self.locals }
    }

    /// Add a local value.
    pub fn local(self, key: &str, value: V) -> (b: Self)
        ensures
            b.request_spec() == self.request_spec(),
            b.state_spec() == self.state_spec(),
            b.locals_spec() == self.locals_spec().insert(key@, value),
    {
        let mut locals = self.locals;
        locals.insert(key.to_owned(), value);
        ScriptContextBuilder { request: self.request, state: self.state, locals }
    }

    /// Build the context: `None` exactly when no request was set.
    pub fn build(self) -> (c: Option<ScriptContext<V>>)
        ensures
            match c {
                Some(ctx) => self.request_spec() == Some(ctx.request) && ctx.state@ == self.state_spec()
                    && ctx.locals@ == self.locals_spec(),
                None => self.request_spec() is None,
            },
    {
        match self.request {
            Some(request) => Some(ScriptContext { request, state: Arc::new(self.state), locals: self.locals }),
            None => None,
        }
    }
}

} // verus!
