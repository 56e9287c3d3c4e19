//! Decisions of the HTTP prober: which addresses to request for a host, how
//! to identify the client, and which addresses count as alive.
use rand::prelude::IndexedRandom;
use vstd::prelude::*;

use crate::text::{concat, starts_with, starts_with_str, to_owned_string};

verus! {

/// How the prober works: how many hosts at once, the request timeout in
/// seconds, a delay in seconds, and the `User-Agent` header (a random
/// browser's when `None`). The delay is carried but the prober does not
/// wait on it: no request is held back.
pub struct ProbeConfig {
    pub concurrency: usize,
    pub timeout: u64,
    pub delay: u64,
    pub user_agent: Option<String>,
}

impl Default for ProbeConfig {
    fn default() -> (r: Self)
        ensures
            r.concurrency == 50,
            r.timeout == 10,
            r.delay == 1,
            r.user_agent is None,
    {
        ProbeConfig { concurrency: 50, timeout: 10, delay: 1, user_agent: None }
    }
}

/// How many redirects a request follows.
pub const MAX_REDIRECTS: usize = 10;

/// The browser identities that the prober picks from when none is configured.
pub open spec fn user_agent_list() -> Seq<Seq<char>> {
    seq![
        "Mozilla/5.0 (Windows NT 10.0; Win64; x64) AppleWebKit/537.36 (KHTML, like Gecko) Chrome/91.0.4472.124 Safari/537.36"@,
        "Mozilla/5.0 (Macintosh; Intel Mac OS X 10_15_7) AppleWebKit/537.36 (KHTML, like Gecko) Chrome/91.0.4472.124 Safari/537.36"@,
        "Mozilla/5.0 (Windows NT 10.0; Win64; x64; rv:89.0) Gecko/20100101 Firefox/89.0"@,
        "Mozilla/5.0 (iPhone; CPU iPhone OS 14_6 like Mac OS X) AppleWebKit/605.1.15 (KHTML, like Gecko) Version/14.0 Mobile/15E148 Safari/604.1"@,
    ]
}

/// The browser identities that the prober picks from.
pub fn user_agents() -> (r: Vec<&'static str>)
    ensures
        r@.map_values(|s: &str| s@) == user_agent_list(),
{
    let r = vec![
        "Mozilla/5.0 (Windows NT 10.0; Win64; x64) AppleWebKit/537.36 (KHTML, like Gecko) Chrome/91.0.4472.124 Safari/537.36",
        "Mozilla/5.0 (Macintosh; Intel Mac OS X 10_15_7) AppleWebKit/537.36 (KHTML, like Gecko) Chrome/91.0.4472.124 Safari/537.36",
        "Mozilla/5.0 (Windows NT 10.0; Win64; x64; rv:89.0) Gecko/20100101 Firefox/89.0",
        "Mozilla/5.0 (iPhone; CPU iPhone OS 14_6 like Mac OS X) AppleWebKit/605.1.15 (KHTML, like Gecko) Version/14.0 Mobile/15E148 Safari/604.1",
    ];
    assert(r@.map_values(|s: &str| s@) =~= user_agent_list());
    r
}

/// Picks one of `items` with `rand`'s `IndexedRandom::choose`, using the
/// thread-local generator `rand::rng()`. The claim, from `choose`'s source:
/// `None` exactly for an empty slice, otherwise one of the items. Which one
/// is left open: it is random.
#[verifier::external_body]
fn choose_one(items: &[&'static str]) -> (r: Option<&'static str>)
    ensures
        r is Some <==> items@.len() > 0,
        r matches Some(s) ==> items@.contains(s),
{
    items.choose(&mut rand::rng()).copied()
}

/// A browser identity picked at random from the list.
pub fn get_random_user_agent() -> (r: &'static str)
    ensures
        user_agent_list().contains(r@),
{
    let agents = user_agents();
    assert(agents@.map_values(|s: &str| s@).len() == 4);
    let picked = choose_one(agents.as_slice());
    let r = match picked {
        Some(agent) => agent,
        None => agents[0],
    };
    proof {
        if picked is None {
            assert(agents@[0] == r);
        }
        assert(agents@.contains(r));
        let i = choose|i: int| 0 <= i < agents@.len() && agents@[i] == r;
        assert(agents@.map_values(|s: &str| s@)[i] == r@);
    }
    r
}

/// The `User-Agent` header that the prober sends: the configured one, or a
/// browser identity picked at random.
pub fn select_user_agent(config: &ProbeConfig) -> (r: String)
    ensures
        match config.user_agent {
            Some(ua) => r@ == ua@,
            None => user_agent_list().contains(r@),
        },
{
    match &config.user_agent {
        Some(ua) => ua.clone(),
        None => to_owned_string(get_random_user_agent()),
    }
}

/// `url` names its scheme: it begins with `http://` or `https://`.
pub open spec fn has_scheme(url: Seq<char>) -> bool {
    starts_with(url, "http://"@) || starts_with(url, "https://"@)
}

/// The addresses to request for one host.
#[derive(Debug)]
pub enum ProbePlan {
    /// The host already names its scheme; it is requested as it is.
    AsGiven(String),
    /// The host is requested over both schemes.
    BothSchemes { http: String, https: String },
}

/// `plan` is what `plan_probe` makes of `host`.
pub open spec fn is_plan_for(plan: ProbePlan, host: Seq<char>) -> bool {
    if has_scheme(host) {
        plan matches ProbePlan::AsGiven(url) && url@ == host
    } else {
        plan matches ProbePlan::BothSchemes { http, https } && http@ == "http://"@ + host
            && https@ == "https://"@ + host
    }
}

/// The addresses to request for `host`.
pub fn plan_probe(host: &str) -> (plan: ProbePlan)
    ensures
        is_plan_for(plan, host@),
{
    if starts_with_str(host, "http://") || starts_with_str(host, "https://") {
        ProbePlan::AsGiven(to_owned_string(host))
    } else {
        ProbePlan::BothSchemes { http: concat("http://", host), https: concat("https://", host) }
    }
}

/// A request answered with a 2xx status.
pub open spec fn answered_ok(outcome: Option<bool>) -> bool {
    outcome == Some(true)
}

/// `url`, when `keep` holds; nothing otherwise.
pub open spec fn if_kept(keep: bool, url: Seq<char>) -> Seq<Seq<char>> {
    if keep {
        seq![url]
    } else {
        seq![]
    }
}

/// The addresses that count as alive after the requests of `plan`. Each
/// request's outcome is `None` when it failed and `Some(success)` when a
/// response came back, `success` telling whether its status was 2xx; for
/// `AsGiven` only `first` is read, for `BothSchemes` `first` is the
/// `http://` request and `second` the `https://` one.
///
/// The addresses whose request answered 2xx, `http://` before `https://`,
/// with one exception: when the `https://` request failed and the `http://`
/// one answered 2xx, the `https://` address is the one reported.
pub open spec fn alive(plan: ProbePlan, first: Option<bool>, second: Option<bool>) -> Seq<Seq<char>> {
    match plan {
        ProbePlan::AsGiven(url) => if_kept(answered_ok(first), url@),
        ProbePlan::BothSchemes { http, https } => if second is None && answered_ok(first) {
            seq![https@]
        } else {
            if_kept(answered_ok(first), http@) + if_kept(answered_ok(second), https@)
        },
    }
}

/// The addresses that count as alive after the requests of `plan`, in the
/// order in which the prober reports them.
pub fn alive_urls(plan: &ProbePlan, first: Option<bool>, second: Option<bool>) -> (r: Vec<String>)
    ensures
        r@.map_values(|s: String| s@) == alive(*plan, first, second),
{
    let mut r: Vec<String> = Vec::new();
    match plan {
        ProbePlan::AsGiven(url) => {
            if first == Some(true) {
                r.push(url.clone());
            }
        },
        ProbePlan::BothSchemes { http, https } => {
            match (first, second) {
                (Some(a), Some(b)) => {
                    if a {
                        r.push(http.clone());
                    }
                    if b {
                        r.push(https.clone());
                    }
                },
                (Some(a), None) => {
                    if a {
                        r.push(https.clone());
                    }
                },
                (None, Some(b)) => {
                    if b {
                        r.push(https.clone());
                    }
                },
                (None, None) => {},
            }
        },
    }
    assert(r@.map_values(|s: String| s@) =~= alive(*plan, first, second));
    r
}

} // verus!
