//! Script handlers and middleware: which script runs, and what response
//! comes out of what a script left behind.

use std::sync::Arc;
use vstd::prelude::*;

use crate::bindings::{ResponseBinding, ResponseView, bare_response, text_response};

verus! {

/// `Arc::clone`: another handle to the same shared value.
#[verifier::external_body]
pub(crate) fn share<E>(a: &Arc<E>) -> (r: Arc<E>)
    ensures
        r == *a,
{
    a.clone()
}

/// The optional text of an optional string.
pub open spec fn opt_text(o: Option<String>) -> Option<Seq<char>> {
    match o {
        Some(s) => Some(s@),
        None => None,
    }
}

/// A script-based HTTP handler: the script that answers a request, and the
/// engine that runs it.
pub struct ScriptHandler<E> {
    engine: Arc<E>,
    script_path: String,
}

impl<E> ScriptHandler<E> {
    /// The engine that runs the script.
    pub closed spec fn engine_spec(&self) -> Arc<E> {
        self.engine
    }

    /// The script's path.
    pub closed spec fn path_spec(&self) -> Seq<char> {
        self.script_path@
    }

    /// Create a new script handler.
    pub fn new(engine: Arc<E>, script_path: &str) -> (h: Self)
        ensures
            h.engine_spec() == engine,
            h.path_spec() == script_path@,
    {
        ScriptHandler { engine, script_path: script_path.to_owned() }
    }

    /// Get the script path.
    pub fn script_path(&self) -> (p: &str)
        ensures
            p@ == self.path_spec(),
    {
        self.script_path.as_str()
    }

    /// Get the engine.
    pub fn engine(&self) -> (e: &Arc<E>)
        ensures
            *e == self.engine_spec(),
    {
        &self.engine
    }
}

/// What a script evaluated to, as far as turning it into a response goes.
pub enum ScriptValue {
    /// A response binding.
    Response(ResponseBinding),
    /// A string.
    Text(String),
    /// A map or an array.
    Collection,
    /// Anything else.
    Other,
}

/// What a handler's result becomes.
pub enum HandlerOutcome {
    /// This response.
    Respond(ResponseBinding),
    /// The script's value, serialized as JSON into a fresh response.
    EncodeJson,
}

/// The response a handler script produces: the binding it returned; else the
/// `response` variable of its scope, if it holds a binding that the script
/// changed from the fresh `200` it starts as; else a string result as a `200`
/// plain-text body; else a map or array result as JSON; else an empty `200`.
pub open spec fn handler_response(result: ScriptValue, in_scope: Option<ResponseView>) -> Option<ResponseView> {
    match result {
        ScriptValue::Response(r) => Some(r@),
        _ => if in_scope matches Some(r) && r != bare_response(200) {
            in_scope
        } else {
            match result {
                ScriptValue::Text(t) => Some(text_response(200, t@)),
                ScriptValue::Collection => None,
                _ => Some(bare_response(200)),
            }
        },
    }
}

/// The optional view of an optional response.
pub open spec fn opt_response(o: Option<ResponseBinding>) -> Option<ResponseView> {
    match o {
        Some(r) => Some(r@),
        None => None,
    }
}

impl<E> ScriptHandler<E> {
    /// Convert a script result to a response, given the binding left in the
    /// script's `response` variable, if any. That binding counts only when the
    /// script changed it from the fresh response it starts as. `EncodeJson`
    /// asks the caller to serialize the value, which takes the script
    /// engine's own types.
    pub fn result_to_response(result: ScriptValue, scope_response: Option<ResponseBinding>) -> (r: HandlerOutcome)
        ensures
            match r {
                HandlerOutcome::Respond(resp) => handler_response(result, opt_response(scope_response))
                    == Some(resp@),
                HandlerOutcome::EncodeJson => handler_response(result, opt_response(scope_response))
                    is None,
            },
    {
        let modified = match scope_response {
            Some(r) => if r.is_untouched() {
                None
            } else {
                Some(r)
            },
            None => None,
        };
        match result {
            ScriptValue::Response(r) => HandlerOutcome::Respond(r),
            ScriptValue::Text(t) => match modified {
                Some(r) => HandlerOutcome::Respond(r),
                None => HandlerOutcome::Respond(ResponseBinding::plain_text(200, t.as_str())),
            },
            ScriptValue::Collection => match modified {
                Some(r) => HandlerOutcome::Respond(r),
                None => HandlerOutcome::EncodeJson,
            },
            ScriptValue::Other => match modified {
                Some(r) => HandlerOutcome::Respond(r),
                None => HandlerOutcome::Respond(ResponseBinding::new()),
            },
        }
    }
}

/// A script-based middleware: a script to run before handlers, one to run
/// after them, or both.
pub struct ScriptMiddleware<E> {
    engine: Arc<E>,
    before_script: Option<String>,
    after_script: Option<String>,
}

impl<E> ScriptMiddleware<E> {
    /// The engine that runs the scripts.
    pub closed spec fn engine_spec(&self) -> Arc<E> {
        self.engine
    }

    /// The script run before handlers.
    pub closed spec fn before_spec(&self) -> Option<Seq<char>> {
        opt_text(self.before_script)
    }

    /// The script run after handlers.
    pub closed spec fn after_spec(&self) -> Option<Seq<char>> {
        opt_text(self.after_script)
    }

    /// Create a new middleware with before script.
    pub fn before(engine: Arc<E>, script_path: &str) -> (m: Self)
        ensures
            m.engine_spec() == engine,
            m.before_spec() == Some(script_path@),
            m.after_spec() is None,
    {
        ScriptMiddleware { engine, before_script: Some(script_path.to_owned()), after_script: None }
    }

    /// Create a new middleware with after script.
    pub fn after(engine: Arc<E>, script_path: &str) -> (m: Self)
        ensures
            m.engine_spec() == engine,
            m.before_spec() is None,
            m.after_spec() == Some(script_path@),
    {
        ScriptMiddleware { engine, before_script: None, after_script: Some(script_path.to_owned()) }
    }

    /// Create a new middleware with both before and after scripts.
    pub fn both(engine: Arc<E>, before: &str, after: &str) -> (m: Self)
        ensures
            m.engine_spec() == engine,
            m.before_spec() == Some(before@),
            m.after_spec() == Some(after@),
    {
        ScriptMiddleware {
            engine,
            before_script: Some(before.to_owned()),
            after_script: Some(after.to_owned()),
        }
    }

    /// The script run before handlers.
    pub fn before_script(&self) -> (s: Option<&String>)
        ensures
            match s {
                Some(p) => self.before_spec() == Some(p@),
                None => self.before_spec() is None,
            },
    {
        match &self.before_script {
            Some(p) => Some(p),
            None => None,
        }
    }

    /// The script run after handlers.
    pub fn after_script(&self) -> (s: Option<&String>)
        ensures
            match s {
                Some(p) => self.after_spec() == Some(p@),
                None => self.after_spec() is None,
            },
    {
        match &self.after_script {
            Some(p) => Some(p),
            None => None,
        }
    }

    /// Get the engine.
    pub fn engine(&self) -> (e: &Arc<E>)
        ensures
            *e == self.engine_spec(),
    {
        &self.engine
    }

    /// Whether a `before` script stops the request, and with what response.
    ///
    /// The script stops it by setting `continue` to `false`; the response is
    /// the binding the script returned, else the one in its `response`
    /// variable. Otherwise, or with no binding in either place, the request
    /// goes on.
    pub fn before_outcome(
        continue_flag: Option<bool>,
        returned: Option<ResponseBinding>,
        in_scope: Option<ResponseBinding>,
    ) -> (r: Option<ResponseBinding>)
        ensures
            opt_response(r) == (if continue_flag == Some(false) {
                match returned {
                    Some(b) => Some(b@),
                    None => opt_response(in_scope),
                }
            } else {
                None
            }),
    {
        match continue_flag {
            Some(false) => match returned {
                Some(b) => Some(b),
                None => in_scope,
            },
            _ => None,
        }
    }

    /// The response after an `after` script: the binding it returned; else
    /// the `response` variable of its scope, which starts as a copy of the
    /// real response and holds any change the script made to it; else, when
    /// the script replaced that variable with something that is not a
    /// binding, the real response itself.
    pub fn after_outcome(
        returned: Option<ResponseBinding>,
        in_scope: Option<ResponseBinding>,
        original: ResponseBinding,
    ) -> (r: ResponseBinding)
        ensures
            r@ == (match returned {
                Some(b) => b@,
                None => match in_scope {
                    Some(s) => s@,
                    None => original@,
                },
            }),
    {
        match returned {
            Some(b) => b,
            None => match in_scope {
                Some(s) => s,
                None => original,
            },
        }
    }
}

} // verus!
