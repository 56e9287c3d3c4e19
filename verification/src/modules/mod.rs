//! The sources of subdomains and the host prober.
use vstd::prelude::*;

use crate::subdomains::SubdomainSet;

pub mod asnmap;
pub mod chaos;
pub mod crtsh;
pub mod hprobe;

verus! {

/// Why fetching a service's answer failed; the caller that performed the
/// request says so in words.
#[derive(Debug)]
pub enum FetchError {
    /// The request could not be sent or no answer came back.
    Request(String),
    /// An answer came back but could not be decoded.
    Decode(String),
}

/// The names that a source's outcome holds: those of a success, none for a failure.
pub open spec fn outcome_names(outcome: Result<SubdomainSet, FetchError>) -> Set<Seq<char>> {
    match outcome {
        Ok(s) => s@,
        Err(_) => Set::empty(),
    }
}

/// A source of subdomains. The request is made by the caller; the source
/// turns what came back into a set of names.
pub trait SubdomainEnumerator {
    /// What the caller fetched from the service.
    type Response;

    /// The outcome that `enumerate` gives for `domain` and `response`.
    spec fn enumeration_outcome(&self, domain: Seq<char>, response: Self::Response) -> Result<
        Set<Seq<char>>,
        FetchError,
    >;

    /// The names that the fetched `response` yields for `domain`.
    fn enumerate(&self, domain: &str, response: Self::Response) -> (r: Result<
        SubdomainSet,
        FetchError,
    >)
        ensures
            match r {
                Ok(s) => self.enumeration_outcome(domain@, response) == Ok::<
                    Set<Seq<char>>,
                    FetchError,
                >(s@),
                Err(e) => self.enumeration_outcome(domain@, response) == Err::<
                    Set<Seq<char>>,
                    FetchError,
                >(e),
            },
    ;
}

/// The certificate-transparency source (crt.sh).
pub struct Crtsh;

impl SubdomainEnumerator for Crtsh {
    type Response = Result<Vec<crtsh::CrtshEntry>, FetchError>;

    open spec fn enumeration_outcome(
        &self,
        domain: Seq<char>,
        response: Result<Vec<crtsh::CrtshEntry>, FetchError>,
    ) -> Result<Set<Seq<char>>, FetchError> {
        crtsh::outcome(response)
    }

    fn enumerate(&self, domain: &str, response: Result<Vec<crtsh::CrtshEntry>, FetchError>) -> (r:
        Result<SubdomainSet, FetchError>) {
        crtsh::enumerate(response, domain)
    }
}

/// The DNS-dataset source (Chaos).
pub struct Chaos;

impl SubdomainEnumerator for Chaos {
    type Response = Option<Result<Vec<String>, FetchError>>;

    open spec fn enumeration_outcome(
        &self,
        domain: Seq<char>,
        response: Option<Result<Vec<String>, FetchError>>,
    ) -> Result<Set<Seq<char>>, FetchError> {
        chaos::outcome(response, domain)
    }

    fn enumerate(&self, domain: &str, response: Option<Result<Vec<String>, FetchError>>) -> (r:
        Result<SubdomainSet, FetchError>) {
        chaos::enumerate(response, domain)
    }
}

} // verus!
