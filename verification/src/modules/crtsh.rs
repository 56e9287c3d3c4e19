//! Names from certificate-transparency logs (crt.sh).
use vstd::prelude::*;

use crate::modules::FetchError;
use crate::subdomains::SubdomainSet;
use crate::text::{
    concat, concat3, split, split_str, starts_with, starts_with_str, strip_prefixes,
    strip_prefixes_str, trim, trim_str, views,
};

verus! {

/// One logged certificate, as crt.sh lists it: `name_value` holds the
/// certificate's names, one per line.
#[derive(Debug)]
pub struct CrtshEntry {
    pub name_value: String,
}

/// The address that lists the certificates of `domain` and of its subdomains as JSON.
pub fn query_url(domain: &str) -> (r: String)
    ensures
        r@ == "https://crt.sh/?q=%25."@ + domain@ + "&output=json"@,
{
    concat3("https://crt.sh/?q=%25.", domain, "&output=json")
}

/// The name that one line of a certificate's `name_value` contributes:
/// the line without surrounding whitespace; nothing for a blank line; for a
/// wildcard name (`*.`), the name with every leading `*.` removed.
pub open spec fn certificate_name(line: Seq<char>) -> Option<Seq<char>> {
    let name = trim(line);
    if name.len() == 0 {
        None
    } else if starts_with(name, "*."@) {
        Some(strip_prefixes(name, "*."@))
    } else {
        Some(name)
    }
}

/// The names that the given lines contribute.
pub open spec fn line_names(lines: Seq<Seq<char>>) -> Set<Seq<char>>
    decreases lines.len(),
{
    if lines.len() == 0 {
        Set::empty()
    } else {
        let earlier = line_names(lines.drop_last());
        match certificate_name(lines.last()) {
            Some(name) => earlier.insert(name),
            None => earlier,
        }
    }
}

/// The names that the given `name_value` texts contribute, each split into lines.
pub open spec fn entry_names(texts: Seq<Seq<char>>) -> Set<Seq<char>>
    decreases texts.len(),
{
    if texts.len() == 0 {
        Set::empty()
    } else {
        entry_names(texts.drop_last()).union(line_names(split(texts.last(), '\n')))
    }
}

/// The `name_value` texts of the entries.
pub open spec fn entry_texts(entries: Seq<CrtshEntry>) -> Seq<Seq<char>> {
    entries.map_values(|e: CrtshEntry| e.name_value@)
}

/// What `enumerate` gives for a fetched response: the failure as it is, or
/// the names of all entries.
pub open spec fn outcome(response: Result<Vec<CrtshEntry>, FetchError>) -> Result<
    Set<Seq<char>>,
    FetchError,
> {
    match response {
        Ok(entries) => Ok(entry_names(entry_texts(entries@))),
        Err(e) => Err(e),
    }
}

/// The subdomains that crt.sh's answer for `domain` lists: each line of each
/// entry's `name_value`, trimmed, blank lines skipped, wildcard names
/// reduced to the name they cover. A failed fetch is passed on.
pub fn enumerate(response: Result<Vec<CrtshEntry>, FetchError>, domain: &str) -> (r: Result<
    SubdomainSet,
    FetchError,
>)
    ensures
        match r {
            Ok(s) => outcome(response) == Ok::<Set<Seq<char>>, FetchError>(s@),
            Err(e) => outcome(response) == Err::<Set<Seq<char>>, FetchError>(e),
        },
{
    match response {
        Err(e) => Err(e),
        Ok(entries) => {
            let ghost texts = entry_texts(entries@);
            let wildcard_domain = concat("*.", domain);
            let mut names = SubdomainSet::new();
            let n = entries.len();
            assert(texts.take(0) =~= Seq::<Seq<char>>::empty());
            for i in 0..n
                invariant
                    n == entries@.len(),
                    texts == entry_texts(entries@),
                    wildcard_domain@ == "*."@ + domain@,
                    names@ == entry_names(texts.take(i as int)),
            {
                let lines = split_str(entries[i].name_value.as_str(), '\n');
                let ghost before = names@;
                let m = lines.len();
                assert(views(lines@).take(0) =~= Seq::<Seq<char>>::empty());
                assert(before.union(Set::<Seq<char>>::empty()) =~= before);
                for j in 0..m
                    invariant
                        m == lines@.len(),
                        wildcard_domain@ == "*."@ + domain@,
                        names@ == before.union(line_names(views(lines@).take(j as int))),
                {
                    let ghost line = lines@[j as int]@;
                    proof {
                        assert(views(lines@).take(j + 1).drop_last() =~= views(lines@).take(
                            j as int,
                        ));
                        assert(views(lines@).take(j + 1).last() == line);
                    }
                    let name = trim_str(lines[j].as_str());
                    if name.as_str().is_empty() {
                    } else if starts_with_str(name.as_str(), "*.") {
                        let base = strip_prefixes_str(name.as_str(), "*.");
                        names.insert(base);
                        proof {
                            let earlier = line_names(views(lines@).take(j as int));
                            assert(before.union(earlier).insert(strip_prefixes(trim(line), "*."@))
                                =~= before.union(earlier.insert(strip_prefixes(trim(line), "*."@))));
                        }
                    } else if name == wildcard_domain {
                        proof {
                            assert(("*."@ + domain@).take("*."@.len() as int) =~= "*."@);
                        }
                    } else {
                        let ghost v = name@;
                        names.insert(name);
                        proof {
                            let earlier = line_names(views(lines@).take(j as int));
                            assert(before.union(earlier).insert(v) =~= before.union(
                                earlier.insert(v),
                            ));
                        }
                    }
                }
                proof {
                    assert(views(lines@).take(m as int) =~= views(lines@));
                    assert(texts.take(i + 1).drop_last() =~= texts.take(i as int));
                    assert(texts.take(i + 1).last() == entries@[i as int].name_value@);
                }
            }
            assert(texts.take(n as int) =~= texts);
            Ok(names)
        },
    }
}

} // verus!
