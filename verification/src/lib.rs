//! Rhai scripting integration for Armature: the routing, request and
//! response bindings, script caching and dispatch rules of script-based
//! HTTP handlers, verified with Verus.
//!
//! The router maps URL patterns (`/users/:id`, `/api/*`) to script files,
//! runs middleware scripts before and after the handler, and falls back to
//! a not-found or error script, or to plain `404`/`500` responses.

pub mod text;
pub mod assoc;
pub mod error;
pub mod router;
pub mod bindings;
pub mod handler;
pub mod dispatch;
pub mod paths;
pub mod script;
pub mod context;
pub mod watcher;
pub mod laws;

pub use assoc::StringMap;
pub use bindings::{RequestBinding, RequestParts, ResponseBinding};
pub use context::{ScriptContext, ScriptContextBuilder};
pub use dispatch::{Action, RequestPipeline, ScriptOutcome, Stage};
pub use error::{Result, RhaiError};
pub use handler::{HandlerOutcome, ScriptHandler, ScriptMiddleware, ScriptValue};
pub use router::{HttpMethod, Route, ScriptRouter, ScriptRouterBuilder};
pub use script::{CacheStats, ScriptCache, ScriptLoader};
pub use watcher::{Debouncer, HotReloadExt, ScriptWatcher};
