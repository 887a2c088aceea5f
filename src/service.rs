//! The network capability of the post fetcher: the adapter trait and the
//! data it carries.
use vstd::prelude::*;
use std::collections::HashMap;

verus! {

#[verifier::external_type_specification]
#[verifier::external_body]
pub struct ExAnyhowError(anyhow::Error);

/// A response of a network adapter; the body is UTF-8 text.
pub struct NetworkResponse {
    pub status: u16,
    pub headers: HashMap<String, String>,
    pub body: String,
}

/// What the runtime is asked to fetch.
pub struct Request {
    pub url: String,
    pub headers: HashMap<String, String>,
}

/// A post in canonical shape.
#[derive(Clone, Debug)]
pub struct Post {
    pub id: u64,
    pub user_id: u64,
    pub title: String,
    pub body: String,
}

/// A network capability, provided by the host at run time.
pub trait NetworkAdapter {
    fn fetch(&self, url: &str, headers: &HashMap<String, String>) -> Result<
        NetworkResponse,
        anyhow::Error,
    >;
}

} // verus!
