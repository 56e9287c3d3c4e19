//! Subdomain enumeration: the rules that turn what certificate-transparency
//! logs and DNS datasets report into a set of subdomains, and the decisions
//! of the host prober. The requests themselves are made by the caller, which
//! hands the answers to the functions here.
use vstd::prelude::*;

pub mod address;
pub mod laws;
pub mod modules;
pub mod subdomains;
pub mod text;

use crate::modules::{outcome_names, FetchError};
use crate::subdomains::SubdomainSet;
use crate::text::{chars_of, contains_char, views};

verus! {

/// A name worth reporting: not empty, not beginning with `*` or `.`, and
/// holding at least one `.`.
pub open spec fn is_valid_subdomain(name: Seq<char>) -> bool {
    &&& name.len() > 0
    &&& name[0] != '*'
    &&& name[0] != '.'
    &&& name.contains('.')
}

/// The names of `names` worth reporting.
pub open spec fn valid_names(names: Set<Seq<char>>) -> Set<Seq<char>> {
    names.filter(|name: Seq<char>| is_valid_subdomain(name))
}

/// Whether `name` is worth reporting.
pub fn is_valid_subdomain_name(name: &str) -> (r: bool)
    ensures
        r == is_valid_subdomain(name@),
{
    let cs = chars_of(name);
    cs.len() > 0 && cs[0] != '*' && cs[0] != '.' && contains_char(name, '.')
}

/// The names of `names` worth reporting.
pub fn filter_valid(names: SubdomainSet) -> (r: SubdomainSet)
    ensures
        r@ == valid_names(names@),
{
    let ghost all = names@;
    let items = names.into_vec();
    let ghost seen = views(items@);
    let n = items.len();
    let mut kept = SubdomainSet::new();
    assert(seen.take(0).to_set() =~= Set::<Seq<char>>::empty());
    assert(valid_names(Set::<Seq<char>>::empty()) =~= Set::<Seq<char>>::empty());
    for i in 0..n
        invariant
            n == items@.len(),
            seen == views(items@),
            seen.to_set() == all,
            kept@ == valid_names(seen.take(i as int).to_set()),
    {
        let name = items[i].clone();
        let ghost v = name@;
        proof {
            assert(seen.take(i + 1) =~= seen.take(i as int).push(v));
            seen.take(i as int).lemma_push_to_set_commute(v);
        }
        if is_valid_subdomain_name(name.as_str()) {
            kept.insert(name);
            assert(kept@ =~= valid_names(seen.take(i + 1).to_set()));
        } else {
            assert(kept@ =~= valid_names(seen.take(i + 1).to_set()));
        }
    }
    assert(seen.take(n as int) =~= seen);
    kept
}

/// The subdomains found for a domain, given what the certificate-transparency
/// source and the DNS-dataset source gave: the names of the sources that
/// succeeded, together, without the names not worth reporting (wildcards,
/// empty names, names beginning with `.`, names without a `.`). A failed
/// source contributes nothing.
pub fn enumerate_subdomains(
    crtsh: Result<SubdomainSet, FetchError>,
    chaos: Result<SubdomainSet, FetchError>,
) -> (r: SubdomainSet)
    ensures
        r@ == valid_names(outcome_names(crtsh).union(outcome_names(chaos))),
{
    let mut all = SubdomainSet::new();
    match crtsh {
        Ok(results) => all.extend(results),
        Err(_) => {},
    }
    match chaos {
        Ok(results) => all.extend(results),
        Err(_) => {},
    }
    assert(all@ =~= outcome_names(crtsh).union(outcome_names(chaos)));
    filter_valid(all)
}

} // verus!
