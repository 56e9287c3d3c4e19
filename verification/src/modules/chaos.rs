//! Names from ProjectDiscovery's Chaos DNS dataset.
use vstd::prelude::*;

use crate::modules::FetchError;
use crate::subdomains::SubdomainSet;
use crate::text::{concat3, views};

verus! {

/// The address that lists the subdomain labels that Chaos knows for `domain`.
pub fn query_url(domain: &str) -> (r: String)
    ensures
        r@ == "https://dns.projectdiscovery.io/dns/"@ + domain@ + "/subdomains"@,
{
    concat3("https://dns.projectdiscovery.io/dns/", domain, "/subdomains")
}

/// The full name of the label `sub` under `domain`: `sub.domain`.
pub open spec fn qualified_name(sub: Seq<char>, domain: Seq<char>) -> Seq<char> {
    sub + "."@ + domain
}

/// The full names of the labels under `domain`.
pub open spec fn qualified_names(subs: Seq<Seq<char>>, domain: Seq<char>) -> Set<Seq<char>> {
    subs.map_values(|sub: Seq<char>| qualified_name(sub, domain)).to_set()
}

/// What `enumerate` gives: nothing when no API key is configured (`None`),
/// the failure of a fetch as it is, or the full names of the listed labels.
pub open spec fn outcome(response: Option<Result<Vec<String>, FetchError>>, domain: Seq<char>) -> Result<
    Set<Seq<char>>,
    FetchError,
> {
    match response {
        None => Ok(Set::empty()),
        Some(Err(e)) => Err(e),
        Some(Ok(subs)) => Ok(qualified_names(views(subs@), domain)),
    }
}

/// The subdomains of `domain` that Chaos lists. `response` is `None` when no
/// API key is configured, in which case the answer is the empty set.
pub fn enumerate(response: Option<Result<Vec<String>, FetchError>>, domain: &str) -> (r: Result<
    SubdomainSet,
    FetchError,
>)
    ensures
        match r {
            Ok(s) => outcome(response, domain@) == Ok::<Set<Seq<char>>, FetchError>(s@),
            Err(e) => outcome(response, domain@) == Err::<Set<Seq<char>>, FetchError>(e),
        },
{
    match response {
        None => Ok(SubdomainSet::new()),
        Some(Err(e)) => Err(e),
        Some(Ok(subs)) => {
            let ghost labels = views(subs@);
            let ghost f = |sub: Seq<char>| qualified_name(sub, domain@);
            let mut names = SubdomainSet::new();
            let n = subs.len();
            assert(labels.take(0).map_values(f).to_set() =~= Set::<Seq<char>>::empty());
            for i in 0..n
                invariant
                    n == subs@.len(),
                    labels == views(subs@),
                    f == (|sub: Seq<char>| qualified_name(sub, domain@)),
                    names@ == labels.take(i as int).map_values(f).to_set(),
            {
                let name = concat3(subs[i].as_str(), ".", domain);
                let ghost v = name@;
                names.insert(name);
                proof {
                    assert(labels.take(i + 1).map_values(f) =~= labels.take(i as int).map_values(
                        f,
                    ).push(v));
                    labels.take(i as int).map_values(f).lemma_push_to_set_commute(v);
                }
            }
            assert(labels.take(n as int) =~= labels);
            Ok(names)
        },
    }
}

} // verus!
