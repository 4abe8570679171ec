//! How the router carries a request through its scripts: before middleware,
//! the route's handler (or the not-found script), after middleware, and the
//! error script. Each step names the script to run next; the caller runs it
//! and reports back what it produced.

use vstd::prelude::*;

use crate::assoc::{StringMap, text_view};
use crate::bindings::{ResponseBinding, ResponseView, text_response};
use crate::error::{RhaiError, error_text};
use crate::router::{
    MiddlewareSpec, RouterView, ScriptRouter, first_route, path_only, pattern_match,
};

verus! {

/// Where a request stands.
pub enum Stage {
    /// Waiting for the `before` script of middleware `index`.
    Before { index: usize },
    /// Waiting for the handler script of the matched route.
    Handler,
    /// Waiting for the not-found script.
    NotFound,
    /// Waiting for the `after` script of middleware `index`.
    After { index: usize },
    /// Waiting for the error script. `message` is the error's text; the
    /// response goes on through the after middleware when `then_after`
    /// (an error of the handler), and is final otherwise (an error of a
    /// middleware script).
    ErrorHandler { message: String, then_after: bool },
    /// The response has been given.
    Done,
}

/// A request on its way through the router.
pub struct RequestPipeline {
    stage: Stage,
    method: String,
    target: String,
}

/// What to do next.
pub enum Action {
    /// Run the `before` script of middleware `index`.
    RunBefore { index: usize, script: String },
    /// Run the handler script of route `route`, with these path parameters.
    RunHandler { route: usize, script: String, params: StringMap<String> },
    /// Run the not-found script.
    RunNotFound { script: String },
    /// Run the `after` script of middleware `index` on `response`.
    RunAfter { index: usize, script: String, response: ResponseBinding },
    /// Run the error script.
    RunErrorHandler { script: String },
    /// Send this response.
    Respond { response: ResponseBinding },
}

/// What the last script run produced.
pub enum ScriptOutcome {
    /// A `before` script let the request go on.
    Continue,
    /// The script produced this response.
    Respond(ResponseBinding),
    /// The script failed.
    Failed(RhaiError),
}

/// Where a request stands, as text.
pub enum StageView {
    Before { index: nat },
    Handler,
    NotFound,
    After { index: nat },
    ErrorHandler { message: Seq<char>, then_after: bool },
    Done,
}

/// What to do next, as text.
pub enum ActionView {
    RunBefore { index: nat, script: Seq<char> },
    RunHandler { route: nat, script: Seq<char>, params: Map<Seq<char>, Seq<char>> },
    RunNotFound { script: Seq<char> },
    RunAfter { index: nat, script: Seq<char>, response: ResponseView },
    RunErrorHandler { script: Seq<char> },
    Respond { response: ResponseView },
}

impl View for Stage {
    type V = StageView;

    open spec fn view(&self) -> StageView {
        match *self {
            Stage::Before { index } => StageView::Before { index: index as nat },
            Stage::Handler => StageView::Handler,
            Stage::NotFound => StageView::NotFound,
            Stage::After { index } => StageView::After { index: index as nat },
            Stage::ErrorHandler { message, then_after } => StageView::ErrorHandler { message: message@, then_after },
            Stage::Done => StageView::Done,
        }
    }
}

impl View for Action {
    type V = ActionView;

    open spec fn view(&self) -> ActionView {
        match *self {
            Action::RunBefore { index, script } => ActionView::RunBefore { index: index as nat, script: script@ },
            Action::RunHandler { route, script, params } => ActionView::RunHandler {
                route: route as nat,
                script: script@,
                params: text_view(params@),
            },
            Action::RunNotFound { script } => ActionView::RunNotFound { script: script@ },
            Action::RunAfter { index, script, response } => ActionView::RunAfter {
                index: index as nat,
                script: script@,
                response: response@,
            },
            Action::RunErrorHandler { script } => ActionView::RunErrorHandler { script: script@ },
            Action::Respond { response } => ActionView::Respond { response: response@ },
        }
    }
}

impl View for RequestPipeline {
    type V = (StageView, Seq<char>, Seq<char>);

    closed spec fn view(&self) -> (StageView, Seq<char>, Seq<char>) {
        (self.stage@, self.method@, self.target@)
    }
}

impl RequestPipeline {
    /// Where the request stands.
    pub fn stage(&self) -> (s: &Stage)
        ensures
            s@ == self@.0,
    {
        &self.stage
    }
}

/// The response given when no route matches and no not-found script answers.
pub open spec fn not_found_response() -> ResponseView {
    text_response(404, "Not Found"@)
}

/// The response given for an error that no error script answers.
pub open spec fn error_response(message: Seq<char>) -> ResponseView {
    text_response(500, "Internal Server Error: "@ + message)
}

/// The first middleware from position `i` on that has a `before` script.
pub open spec fn next_before(mw: Seq<MiddlewareSpec>, i: int) -> int
    decreases mw.len() - i,
{
    if i < 0 || i >= mw.len() {
        mw.len() as int
    } else if mw[i].before is Some {
        i
    } else {
        next_before(mw, i + 1)
    }
}

/// The first middleware from position `i` on that has an `after` script.
pub open spec fn next_after(mw: Seq<MiddlewareSpec>, i: int) -> int
    decreases mw.len() - i,
{
    if i < 0 || i >= mw.len() {
        mw.len() as int
    } else if mw[i].after is Some {
        i
    } else {
        next_after(mw, i + 1)
    }
}

/// Handing `response` to the after middleware from position `i` on: the next
/// one with an `after` script runs on it; with none left, it is the answer.
pub open spec fn enter_after(rv: RouterView, i: int, response: ResponseView) -> (StageView, ActionView) {
    let j = next_after(rv.middleware, i);
    if 0 <= j < rv.middleware.len() {
        (
            StageView::After { index: j as nat },
            ActionView::RunAfter { index: j as nat, script: rv.middleware[j].after.unwrap(), response },
        )
    } else {
        (StageView::Done, ActionView::Respond { response })
    }
}

/// Dispatching to the route: the first route that answers runs its handler;
/// with none, the not-found script runs, or the default `404` goes through
/// the after middleware.
pub open spec fn enter_route(rv: RouterView, method: Seq<char>, target: Seq<char>) -> (StageView, ActionView) {
    let path = path_only(target);
    match first_route(rv.routes, method, path) {
        Some(i) => (
            StageView::Handler,
            ActionView::RunHandler {
                route: i as nat,
                script: rv.routes[i].script_path,
                params: pattern_match(rv.routes[i].pattern, path).unwrap(),
            },
        ),
        None => match rv.not_found_script {
            Some(s) => (StageView::NotFound, ActionView::RunNotFound { script: s }),
            None => enter_after(rv, 0, not_found_response()),
        },
    }
}

/// Running the before middleware from position `i` on: the next one with a
/// `before` script runs; with none left, the request goes to its route.
pub open spec fn enter_before(rv: RouterView, i: int, method: Seq<char>, target: Seq<char>) -> (StageView, ActionView) {
    let j = next_before(rv.middleware, i);
    if 0 <= j < rv.middleware.len() {
        (
            StageView::Before { index: j as nat },
            ActionView::RunBefore { index: j as nat, script: rv.middleware[j].before.unwrap() },
        )
    } else {
        enter_route(rv, method, target)
    }
}

/// Handling an error: the error script runs if there is one; otherwise the
/// default `500` carries the error's message, through the after middleware
/// for an error of the handler and as the final answer otherwise.
pub open spec fn enter_error(rv: RouterView, message: Seq<char>, then_after: bool) -> (StageView, ActionView) {
    match rv.error_script {
        Some(s) => (StageView::ErrorHandler { message, then_after }, ActionView::RunErrorHandler { script: s }),
        None => if then_after {
            enter_after(rv, 0, error_response(message))
        } else {
            (StageView::Done, ActionView::Respond { response: error_response(message) })
        },
    }
}

/// The step a script's outcome leads to.
pub open spec fn next_step(
    rv: RouterView,
    stage: StageView,
    outcome: ScriptOutcome,
    method: Seq<char>,
    target: Seq<char>,
) -> (StageView, ActionView) {
    match stage {
        StageView::Before { index } => match outcome {
            ScriptOutcome::Continue => enter_before(rv, index + 1 as int, method, target),
            ScriptOutcome::Respond(r) => (StageView::Done, ActionView::Respond { response: r@ }),
            ScriptOutcome::Failed(e) => enter_error(rv, error_text(e), false),
        },
        StageView::Handler => match outcome {
            ScriptOutcome::Failed(e) => enter_error(rv, error_text(e), true),
            ScriptOutcome::Respond(r) => enter_after(rv, 0, r@),
            ScriptOutcome::Continue => (StageView::Done, ActionView::Respond { response: not_found_response() }),
        },
        StageView::NotFound => match outcome {
            ScriptOutcome::Respond(r) => enter_after(rv, 0, r@),
            _ => enter_after(rv, 0, not_found_response()),
        },
        StageView::After { index } => match outcome {
            ScriptOutcome::Respond(r) => enter_after(rv, index + 1 as int, r@),
            ScriptOutcome::Failed(e) => enter_error(rv, error_text(e), false),
            ScriptOutcome::Continue => (StageView::Done, ActionView::Respond { response: not_found_response() }),
        },
        StageView::ErrorHandler { message, then_after } => {
            let response = match outcome {
                ScriptOutcome::Respond(r) => r@,
                _ => error_response(message),
            };
            if then_after {
                enter_after(rv, 0, response)
            } else {
                (StageView::Done, ActionView::Respond { response })
            }
        },
        StageView::Done => (StageView::Done, ActionView::Respond { response: not_found_response() }),
    }
}

impl<E> ScriptRouter<E> {
    fn after_from(&self, i: usize, response: ResponseBinding) -> (r: (Stage, Action))
        requires
            i <= self@.middleware.len(),
        ensures
            (r.0@, r.1@) == enter_after(self@, i as int, response@),
        decreases self@.middleware.len() - i,
    {
        if i == self.middleware_count() {
            return (Stage::Done, Action::Respond { response });
        }
        match self.middleware_at(i).after_script() {
            Some(script) => (Stage::After { index: i }, Action::RunAfter { index: i, script: script.clone(), response }),
            None => self.after_from(i + 1, response),
        }
    }

    fn dispatch_route(&self, method: &str, target: &str) -> (r: (Stage, Action))
        ensures
            (r.0@, r.1@) == enter_route(self@, method@, target@),
    {
        match self.find_route(method, target) {
            Some((i, params)) => {
                proof {
                    crate::router::lemma_first_route_from_bounds(self@.routes, method@, path_only(target@), 0);
                }
                let script = self.route_at(i).script_path.clone();
                (Stage::Handler, Action::RunHandler { route: i, script, params })
            },
            None => match self.not_found_script() {
                Some(s) => (Stage::NotFound, Action::RunNotFound { script: s.clone() }),
                None => self.after_from(0, ResponseBinding::plain_text(404, "Not Found")),
            },
        }
    }

    fn before_from(&self, i: usize, method: &str, target: &str) -> (r: (Stage, Action))
        requires
            i <= self@.middleware.len(),
        ensures
            (r.0@, r.1@) == enter_before(self@, i as int, method@, target@),
        decreases self@.middleware.len() - i,
    {
        if i == self.middleware_count() {
            return self.dispatch_route(method, target);
        }
        match self.middleware_at(i).before_script() {
            Some(script) => (Stage::Before { index: i }, Action::RunBefore { index: i, script: script.clone() }),
            None => self.before_from(i + 1, method, target),
        }
    }

    fn on_error(&self, message: String, then_after: bool) -> (r: (Stage, Action))
        ensures
            (r.0@, r.1@) == enter_error(self@, message@, then_after),
    {
        match self.error_script() {
            Some(s) => (Stage::ErrorHandler { message, then_after }, Action::RunErrorHandler { script: s.clone() }),
            None => {
                let text = crate::text::joined("Internal Server Error: ", message.as_str());
                let response = ResponseBinding::plain_text(500, text.as_str());
                if then_after {
                    self.after_from(0, response)
                } else {
                    (Stage::Done, Action::Respond { response })
                }
            },
        }
    }

    /// Start handling a request with the given method token and target:
    /// the first step of its way through the router.
    pub fn begin(&self, method: &str, target: &str) -> (r: (RequestPipeline, Action))
        ensures
            r.0@.1 == method@,
            r.0@.2 == target@,
            (r.0@.0, r.1@) == enter_before(self@, 0, method@, target@),
    {
        let (stage, action) = self.before_from(0, method, target);
        (RequestPipeline { stage, method: method.to_owned(), target: target.to_owned() }, action)
    }

    /// The next step, given what the script of the last one produced.
    /// `Continue` is an outcome of `before` scripts only.
    pub fn resume(&self, pipeline: RequestPipeline, outcome: ScriptOutcome) -> (r: (RequestPipeline, Action))
        requires
            outcome is Continue ==> pipeline@.0 is Before,
            !(pipeline@.0 is Done),
            pipeline@.0 matches StageView::Before { index } ==> index < self@.middleware.len(),
            pipeline@.0 matches StageView::After { index } ==> index < self@.middleware.len(),
        ensures
            r.0@.1 == pipeline@.1,
            r.0@.2 == pipeline@.2,
            (r.0@.0, r.1@) == next_step(self@, pipeline@.0, outcome, pipeline@.1, pipeline@.2),
    {
        let _count = self.middleware_count();
        let RequestPipeline { stage, method, target } = pipeline;
        let (next, action) = match stage {
            Stage::Before { index } => match outcome {
                ScriptOutcome::Continue => self.before_from(index + 1, method.as_str(), target.as_str()),
                ScriptOutcome::Respond(r) => (Stage::Done, Action::Respond { response: r }),
                ScriptOutcome::Failed(e) => self.on_error(e.message(), false),
            },
            Stage::Handler => match outcome {
                ScriptOutcome::Failed(e) => self.on_error(e.message(), true),
                ScriptOutcome::Respond(r) => self.after_from(0, r),
                ScriptOutcome::Continue => (Stage::Done, Action::Respond { response: ResponseBinding::plain_text(404, "Not Found") }),
            },
            Stage::NotFound => match outcome {
                ScriptOutcome::Respond(r) => self.after_from(0, r),
                _ => self.after_from(0, ResponseBinding::plain_text(404, "Not Found")),
            },
            Stage::After { index } => match outcome {
                ScriptOutcome::Respond(r) => self.after_from(index + 1, r),
                ScriptOutcome::Failed(e) => self.on_error(e.message(), false),
                ScriptOutcome::Continue => (Stage::Done, Action::Respond { response: ResponseBinding::plain_text(404, "Not Found") }),
            },
            Stage::ErrorHandler { message, then_after } => {
                let response = match outcome {
                    ScriptOutcome::Respond(r) => r,
                    _ => {
                        let text = crate::text::joined("Internal Server Error: ", message.as_str());
                        ResponseBinding::plain_text(500, text.as_str())
                    },
                };
                if then_after {
                    self.after_from(0, response)
                } else {
                    (Stage::Done, Action::Respond { response })
                }
            },
            Stage::Done => (Stage::Done, Action::Respond { response: ResponseBinding::plain_text(404, "Not Found") }),
        };
        (RequestPipeline { stage: next, method, target }, action)
    }
}

} // verus!
