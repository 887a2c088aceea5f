//! A deterministic feature-flag evaluator: an ordered list of condition rules is
//! evaluated against a context of named values, and the first rule whose
//! condition holds decides whether the flag is enabled.
//!
//! Beside the evaluator stand the pieces of the services around it that hold
//! logic of their own: a retrying network adapter, a deterministic event log,
//! a reader for ASCII grey maps with the rules that tag them, and the image
//! tagger.

pub mod text;
pub mod value;
pub mod literal;
pub mod rollout;
pub mod term;
pub mod eval;
pub mod flag;
pub mod service;
pub mod runtime;
pub mod tagger;
pub mod events;
pub mod pgm;

pub use eval::eval_rule_expr;
pub use events::{error_message, final_state, header_errors, Event, EventBus};
pub use flag::{eval_flag, eval_rules, EvalResult, Flag, Rule};
pub use pgm::{parse_pgm_lines, tag_image, Pgm, PgmError};
pub use rollout::rollout;
pub use runtime::{AdapterBinding, BindingImpl, Bindings, RetryAdapter, ThreadManager};
pub use service::{NetworkAdapter, NetworkResponse, Post, Request};
pub use tagger::{analyze, Capability, ImageAnalyzed, ServiceInfo, Status};
pub use term::{eval_comparison, eval_in, CompareOp, EvalError};
pub use text::split_top_level;
pub use value::{Context, Number, Value};
