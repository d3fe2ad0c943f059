use vstd::prelude::*;

pub mod cli;
pub mod config;
pub mod diff;
pub mod json;
pub mod request;
pub mod response;
pub mod text;

pub use cli::{Action, Args, KeyVal, KeyValType, RunArgs};
pub use config::{DiffConfig, DiffProfile, ResponseProfile};
pub use diff::diff_text;
pub use request::RequestProfile;
pub use response::ResponseExt;

verus! {

/// Overrides for one run, by target: headers, query parameters, body keys.
pub struct ExtraArgs {
    pub headers: Vec<(String, String)>,
    pub query: Vec<(String, String)>,
    pub body: Vec<(String, String)>,
}

} // verus!
