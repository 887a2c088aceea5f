//! Runtime pieces around a network adapter: a synchronous task runner, a
//! retrying adapter, and the record of which adapter was bound.
use vstd::prelude::*;
use std::collections::HashMap;
use crate::service::{NetworkAdapter, NetworkResponse};

verus! {

/// Runs tasks one at a time, in order, on the current thread.
pub struct ThreadManager;

impl ThreadManager {
    pub fn new() -> (r: ThreadManager) {
        ThreadManager
    }

    /// Runs `f` now and returns what it returns.
    pub fn run_sync<F, R>(&self, f: F) -> (r: R)
        where
            F: FnOnce() -> R,
        requires
            f.requires(()),
        ensures
            f.ensures((), r),
    {
        f()
    }
}

/// A status in `200..300`.
pub open spec fn is_success(status: u16) -> bool {
    200 <= status && status < 300
}

/// Whether to try again after attempt number `attempts`, whose outcome was
/// the status `outcome` (`None` for an error): only after a failure, and
/// only while no more than `max_retries` retries have been made.
pub open spec fn retry_spec(attempts: int, max_retries: int, outcome: Option<u16>) -> bool {
    !(outcome matches Some(s) && is_success(s)) && attempts <= max_retries
}

pub fn should_retry(attempts: u64, max_retries: u32, outcome: Option<u16>) -> (r: bool)
    ensures
        r == retry_spec(attempts as int, max_retries as int, outcome),
{
    let ok = match outcome {
        Some(s) => 200 <= s && s < 300,
        None => false,
    };
    !ok && attempts <= max_retries as u64
}

/// An adapter that retries a failed fetch, at most `max_retries` times, with
/// no delay between attempts.
pub struct RetryAdapter<A: NetworkAdapter> {
    inner: A,
    max_retries: u32,
}

impl<A: NetworkAdapter> RetryAdapter<A> {
    pub fn new(inner: A, max_retries: u32) -> (r: RetryAdapter<A>)
        ensures
            r.max_retries() == max_retries,
    {
        RetryAdapter { inner, max_retries }
    }

    pub closed spec fn max_retries(&self) -> u32 {
        self.max_retries
    }
}

impl<A: NetworkAdapter> NetworkAdapter for RetryAdapter<A> {
    /// Fetches through the inner adapter until a status in `200..300` comes
    /// back or the retries are used up; returns the last outcome.
    fn fetch(&self, url: &str, headers: &HashMap<String, String>) -> Result<
        NetworkResponse,
        anyhow::Error,
    > {
        let mut attempts: u64 = 0;
        loop
            invariant
                attempts <= self.max_retries as u64 + 1,
            decreases self.max_retries as u64 + 1 - attempts,
        {
            attempts = attempts + 1;
            let res = self.inner.fetch(url, headers);
            let outcome = match &res {
                Ok(resp) => Some(resp.status),
                Err(_) => None,
            };
            if !should_retry(attempts, self.max_retries, outcome) {
                return res;
            }
        }
    }
}

/// Which adapter implementation was bound, and on which host.
#[derive(Clone, Debug)]
pub struct AdapterBinding {
    pub impl_name: String,
    pub host: String,
}

/// The adapter of one capability, as a lifecycle record lists it.
#[derive(Clone, Debug)]
pub struct BindingImpl {
    pub impl_name: String,
    pub host: String,
}

/// The capabilities bound for a run.
#[derive(Clone, Debug)]
pub struct Bindings {
    pub network_fetch: BindingImpl,
}

impl Bindings {
    /// The bindings of a run whose network capability is `binding`.
    pub fn from_binding(binding: &AdapterBinding) -> (r: Bindings)
        ensures
            r.network_fetch.impl_name@ == binding.impl_name@,
            r.network_fetch.host@ == binding.host@,
    {
        Bindings {
            network_fetch: BindingImpl {
                impl_name: binding.impl_name.clone(),
                host: binding.host.clone(),
            },
        }
    }
}

} // verus!
