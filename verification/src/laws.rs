//! Properties that hold across the library's functions.
use vstd::prelude::*;

use crate::modules::chaos::{qualified_name, qualified_names};
use crate::modules::crtsh::{certificate_name, entry_names, entry_texts, line_names, CrtshEntry};
use crate::modules::hprobe::{alive, has_scheme, is_plan_for, ProbePlan};
use crate::modules::{chaos, crtsh, outcome_names, FetchError};
use crate::subdomains::SubdomainSet;
use crate::valid_names;
use crate::address::{decimal, digit_text, hexadecimal};
use crate::modules::asnmap::organisation;
use crate::text::{
    ends_with, is_whitespace, split, starts_with, strip_prefixes, strip_suffixes, trim, trim_end,
    trim_start,
};

verus! {

/// Removing every leading repetition of a non-empty pattern leaves a text
/// that does not begin with it.
pub proof fn lemma_strip_prefixes_leaves_no_prefix(s: Seq<char>, p: Seq<char>)
    requires
        p.len() > 0,
    ensures
        !starts_with(strip_prefixes(s, p), p),
    decreases s.len(),
{
    if starts_with(s, p) {
        lemma_strip_prefixes_leaves_no_prefix(s.skip(p.len() as int), p);
    }
}

/// Removing every trailing repetition of a non-empty pattern leaves a text
/// that does not end with it.
pub proof fn lemma_strip_suffixes_leaves_no_suffix(s: Seq<char>, p: Seq<char>)
    requires
        p.len() > 0,
    ensures
        !ends_with(strip_suffixes(s, p), p),
    decreases s.len(),
{
    if ends_with(s, p) {
        lemma_strip_suffixes_leaves_no_suffix(s.take(s.len() - p.len()), p);
    }
}

proof fn lemma_certificate_name_not_wildcard(line: Seq<char>)
    ensures
        certificate_name(line) matches Some(name) ==> !starts_with(name, "*."@),
{
    reveal_strlit("*.");
    lemma_strip_prefixes_leaves_no_prefix(crate::text::trim(line), "*."@);
}

proof fn lemma_line_names_not_wildcard(lines: Seq<Seq<char>>)
    ensures
        forall|name: Seq<char>| #[trigger]
            line_names(lines).contains(name) ==> !starts_with(name, "*."@),
    decreases lines.len(),
{
    if lines.len() > 0 {
        lemma_line_names_not_wildcard(lines.drop_last());
        lemma_certificate_name_not_wildcard(lines.last());
        assert forall|name: Seq<char>| #[trigger]
            line_names(lines).contains(name) implies !starts_with(name, "*."@) by {
            if line_names(lines.drop_last()).contains(name) {
            }
        }
    } else {
        assert(line_names(lines) =~= Set::<Seq<char>>::empty());
    }
}

/// No name that crt.sh's answer yields begins with `*.`: wildcard
/// certificate names are reduced to the name they cover.
pub proof fn lemma_certificate_names_have_no_wildcard(texts: Seq<Seq<char>>)
    ensures
        forall|name: Seq<char>| #[trigger]
            entry_names(texts).contains(name) ==> !starts_with(name, "*."@),
    decreases texts.len(),
{
    if texts.len() > 0 {
        lemma_certificate_names_have_no_wildcard(texts.drop_last());
        lemma_line_names_not_wildcard(split(texts.last(), '\n'));
        assert forall|name: Seq<char>| #[trigger]
            entry_names(texts).contains(name) implies !starts_with(name, "*."@) by {
            if entry_names(texts.drop_last()).contains(name) {
            } else {
                assert(line_names(split(texts.last(), '\n')).contains(name));
            }
        }
    } else {
        assert(entry_names(texts) =~= Set::<Seq<char>>::empty());
    }
}

proof fn lemma_split_pieces_lack_separator(s: Seq<char>, sep: char)
    ensures
        forall|i: int|
            0 <= i < split(s, sep).len() ==> !(#[trigger] split(s, sep)[i]).contains(sep),
        split(s, sep).len() >= 1,
    decreases s.len(),
{
    if s.len() > 0 {
        let init = split(s.drop_last(), sep);
        lemma_split_pieces_lack_separator(s.drop_last(), sep);
        if s.last() != sep {
            let last = init.last().push(s.last());
            assert forall|j: int| 0 <= j < last.len() implies last[j] != sep by {
                if j < init.last().len() {
                    assert(init.last()[j] == last[j]);
                    if last[j] == sep {
                        assert(init[init.len() - 1].contains(sep));
                    }
                }
            }
        }
        assert forall|i: int| 0 <= i < split(s, sep).len() implies !(
        #[trigger] split(s, sep)[i]).contains(sep) by {
            if s.last() == sep {
                if i < init.len() {
                    assert(split(s, sep)[i] == init[i]);
                }
            } else {
                if i < init.len() - 1 {
                    assert(split(s, sep)[i] == init[i]);
                }
            }
        }
    }
}

proof fn lemma_trim_start_keeps_chars(s: Seq<char>)
    ensures
        forall|c: char| #[trigger] trim_start(s).contains(c) ==> s.contains(c),
    decreases s.len(),
{
    if s.len() > 0 && crate::text::is_whitespace(s[0]) {
        lemma_trim_start_keeps_chars(s.drop_first());
        assert forall|c: char| trim_start(s).contains(c) implies s.contains(c) by {
            assert(trim_start(s) == trim_start(s.drop_first()));
            assert(s.drop_first().contains(c));
            let j = choose|j: int| 0 <= j < s.drop_first().len() && s.drop_first()[j] == c;
            assert(s[j + 1] == c);
        }
    }
}

proof fn lemma_trim_end_keeps_chars(s: Seq<char>)
    ensures
        forall|c: char| #[trigger] trim_end(s).contains(c) ==> s.contains(c),
    decreases s.len(),
{
    if s.len() > 0 && crate::text::is_whitespace(s.last()) {
        lemma_trim_end_keeps_chars(s.drop_last());
        assert forall|c: char| trim_end(s).contains(c) implies s.contains(c) by {
            assert(trim_end(s) == trim_end(s.drop_last()));
            assert(s.drop_last().contains(c));
            let j = choose|j: int| 0 <= j < s.drop_last().len() && s.drop_last()[j] == c;
            assert(s[j] == c);
        }
    }
}

proof fn lemma_strip_prefixes_keeps_chars(s: Seq<char>, p: Seq<char>)
    ensures
        forall|c: char| #[trigger] strip_prefixes(s, p).contains(c) ==> s.contains(c),
    decreases s.len(),
{
    if p.len() > 0 && starts_with(s, p) {
        let rest = s.skip(p.len() as int);
        lemma_strip_prefixes_keeps_chars(rest, p);
        assert forall|c: char| strip_prefixes(s, p).contains(c) implies s.contains(c) by {
            assert(strip_prefixes(s, p) == strip_prefixes(rest, p));
            assert(rest.contains(c));
            let j = choose|j: int| 0 <= j < rest.len() && rest[j] == c;
            assert(s[j + p.len()] == c);
        }
    }
}

proof fn lemma_certificate_name_single_line(line: Seq<char>)
    requires
        !line.contains('\n'),
    ensures
        certificate_name(line) matches Some(name) ==> !name.contains('\n'),
{
    lemma_trim_start_keeps_chars(line);
    lemma_trim_end_keeps_chars(trim_start(line));
    lemma_strip_prefixes_keeps_chars(trim(line), "*."@);
}

proof fn lemma_line_names_single_line(lines: Seq<Seq<char>>)
    requires
        forall|i: int| 0 <= i < lines.len() ==> !(#[trigger] lines[i]).contains('\n'),
    ensures
        forall|name: Seq<char>| #[trigger] line_names(lines).contains(name) ==> !name.contains('\n'),
    decreases lines.len(),
{
    if lines.len() > 0 {
        let init = lines.drop_last();
        assert forall|i: int| 0 <= i < init.len() implies !(#[trigger] init[i]).contains('\n') by {
            assert(init[i] == lines[i]);
        }
        lemma_line_names_single_line(init);
        assert(lines.last() == lines[lines.len() - 1]);
        lemma_certificate_name_single_line(lines.last());
        assert forall|name: Seq<char>| #[trigger]
            line_names(lines).contains(name) implies !name.contains('\n') by {
            if line_names(init).contains(name) {
            }
        }
    } else {
        assert(line_names(lines) =~= Set::<Seq<char>>::empty());
    }
}

/// Every name that crt.sh's answer yields stands on one line: it holds no
/// line break.
pub proof fn lemma_certificate_names_are_single_lines(texts: Seq<Seq<char>>)
    ensures
        forall|name: Seq<char>| #[trigger] entry_names(texts).contains(name) ==> !name.contains('\n'),
    decreases texts.len(),
{
    if texts.len() > 0 {
        lemma_certificate_names_are_single_lines(texts.drop_last());
        lemma_split_pieces_lack_separator(texts.last(), '\n');
        lemma_line_names_single_line(split(texts.last(), '\n'));
        assert forall|name: Seq<char>| #[trigger]
            entry_names(texts).contains(name) implies !name.contains('\n') by {
            if entry_names(texts.drop_last()).contains(name) {
            } else {
                assert(line_names(split(texts.last(), '\n')).contains(name));
            }
        }
    } else {
        assert(entry_names(texts) =~= Set::<Seq<char>>::empty());
    }
}

/// Every name that Chaos's answer yields for `domain` lies under it: it ends
/// with `.` followed by the domain.
pub proof fn lemma_chaos_names_lie_under_domain(subs: Seq<Seq<char>>, domain: Seq<char>)
    ensures
        forall|name: Seq<char>| #[trigger]
            qualified_names(subs, domain).contains(name) ==> ends_with(name, "."@ + domain),
{
    assert forall|name: Seq<char>| #[trigger]
        qualified_names(subs, domain).contains(name) implies ends_with(name, "."@ + domain) by {
        let f = |sub: Seq<char>| qualified_name(sub, domain);
        let i = choose|i: int| 0 <= i < subs.map_values(f).len() && subs.map_values(f)[i] == name;
        let sub = subs[i];
        assert(name == sub + "."@ + domain);
        assert(name.skip(name.len() - ("."@ + domain).len()) =~= "."@ + domain);
    }
}

/// The organisation name asked about never ends with `.com`, however many
/// times the domain repeats it.
pub proof fn lemma_organisation_has_no_com_suffix(domain: Seq<char>)
    ensures
        !ends_with(organisation(domain), ".com"@),
{
    reveal_strlit(".com");
    lemma_strip_suffixes_leaves_no_suffix(domain, ".com"@);
}

/// The prober reports at most two addresses for a host, and each names its
/// scheme (`http://` or `https://`).
pub proof fn lemma_alive_urls_name_their_scheme(
    plan: ProbePlan,
    host: Seq<char>,
    first: Option<bool>,
    second: Option<bool>,
)
    requires
        is_plan_for(plan, host),
    ensures
        alive(plan, first, second).len() <= 2,
        forall|i: int|
            0 <= i < alive(plan, first, second).len() ==> has_scheme(
                #[trigger] alive(plan, first, second)[i],
            ),
{
    let http = "http://"@ + host;
    let https = "https://"@ + host;
    assert(http.take("http://"@.len() as int) =~= "http://"@);
    assert(https.take("https://"@.len() as int) =~= "https://"@);
    assert(starts_with(http, "http://"@));
    assert(starts_with(https, "https://"@));
}

/// How the prober reports a host requested over both schemes, for every
/// pair of outcomes (`None`: the request failed; `Some(ok)`: a response came
/// back, 2xx when `ok`). When both requests got a response, the `http://`
/// address is reported exactly when its response was 2xx and the `https://`
/// address exactly when its own response was 2xx, `http://` first. When only
/// the `http://` request got a 2xx response, the `https://` address is the
/// one reported. When only the `https://` request got a response, it is
/// reported when that response was 2xx. Nothing is reported when both failed.
pub proof fn lemma_alive_urls_both_schemes(http: String, https: String, first: Option<bool>, second: Option<bool>)
    ensures
        ({
            let r = alive(ProbePlan::BothSchemes { http, https }, first, second);
            &&& (first == Some(true) && second == Some(true)) ==> r == seq![http@, https@]
            &&& (first == Some(true) && second == Some(false)) ==> r == seq![http@]
            &&& (first == Some(false) && second == Some(true)) ==> r == seq![https@]
            &&& (first == Some(false) && second == Some(false)) ==> r == Seq::<Seq<char>>::empty()
            &&& (first == Some(true) && second is None) ==> r == seq![https@]
            &&& (first == Some(false) && second is None) ==> r == Seq::<Seq<char>>::empty()
            &&& (first is None && second == Some(true)) ==> r == seq![https@]
            &&& (first is None && second == Some(false)) ==> r == Seq::<Seq<char>>::empty()
            &&& (first is None && second is None) ==> r == Seq::<Seq<char>>::empty()
        }),
{
    let r = alive(ProbePlan::BothSchemes { http, https }, first, second);
    if first == Some(true) && second == Some(true) {
        assert(r =~= seq![http@, https@]);
    }
    if first == Some(true) && second == Some(false) {
        assert(r =~= seq![http@]);
    }
    if first == Some(false) && second == Some(true) {
        assert(r =~= seq![https@]);
    }
    if first == Some(false) && second == Some(false) {
        assert(r =~= Seq::<Seq<char>>::empty());
    }
}

/// A host that was given with its scheme is reported exactly when its one
/// request answered 2xx; the second outcome is not read.
pub proof fn lemma_alive_urls_as_given(url: String, first: Option<bool>, second: Option<bool>)
    ensures
        first == Some(true) ==> alive(ProbePlan::AsGiven(url), first, second) == seq![url@],
        first != Some(true) ==> alive(ProbePlan::AsGiven(url), first, second) == Seq::<Seq<char>>::empty(),
{
}

/// A host is requested as it is exactly when it begins with `http://` or
/// `https://`; any other host is requested as `http://` + host and as
/// `https://` + host.
pub proof fn lemma_plan_probe_by_prefix(plan: ProbePlan, host: Seq<char>)
    requires
        is_plan_for(plan, host),
    ensures
        ({
            let given_scheme = ("http://"@.len() <= host.len() && host.subrange(0, "http://"@.len() as int) == "http://"@)
                || ("https://"@.len() <= host.len() && host.subrange(0, "https://"@.len() as int) == "https://"@);
            &&& given_scheme ==> (plan matches ProbePlan::AsGiven(url) && url@ == host)
            &&& !given_scheme ==> (plan matches ProbePlan::BothSchemes { http, https }
                && http@ == "http://"@ + host && https@ == "https://"@ + host)
        }),
{
    assert(host.take("http://"@.len() as int) =~= host.subrange(0, "http://"@.len() as int));
    assert(host.take("https://"@.len() as int) =~= host.subrange(0, "https://"@.len() as int));
}

/// The names that the enumeration keeps: exactly those that a source which
/// succeeded reported, are not empty, begin with neither `*` nor `.`, and
/// hold a `.` somewhere.
pub proof fn lemma_enumeration_keeps_exactly(
    crtsh: Result<SubdomainSet, FetchError>,
    chaos: Result<SubdomainSet, FetchError>,
    name: Seq<char>,
)
    ensures
        valid_names(outcome_names(crtsh).union(outcome_names(chaos))).contains(name) <==> (
            ((crtsh matches Ok(s) && s@.contains(name)) || (chaos matches Ok(s) && s@.contains(name)))
            && name.len() > 0 && name[0] != '*' && name[0] != '.'
            && exists|i: int| 0 <= i < name.len() && name[i] == '.'),
{
}

/// Chaos's answer for `domain`: none when no API key is configured, a failed
/// fetch as it is, and otherwise exactly the names label + `.` + domain, one
/// for each listed label, none dropped.
pub proof fn lemma_chaos_names_are_qualified_labels(
    response: Option<Result<Vec<String>, FetchError>>,
    domain: Seq<char>,
)
    ensures
        response is None ==> chaos::outcome(response, domain) == Ok::<Set<Seq<char>>, FetchError>(Set::empty()),
        response matches Some(Err(e)) ==> chaos::outcome(response, domain) == Err::<Set<Seq<char>>, FetchError>(e),
        response matches Some(Ok(subs)) ==> (chaos::outcome(response, domain) matches Ok(names) && {
            &&& forall|i: int| 0 <= i < subs@.len() ==> names.contains(#[trigger] subs@[i]@ + "."@ + domain)
            &&& forall|n: Seq<char>| #[trigger] names.contains(n) ==>
                exists|i: int| 0 <= i < subs@.len() && n == subs@[i]@ + "."@ + domain
        }),
{
    if let Some(Ok(subs)) = response {
        let labels = crate::text::views(subs@);
        let f = |sub: Seq<char>| qualified_name(sub, domain);
        let names = qualified_names(labels, domain);
        assert forall|i: int| 0 <= i < subs@.len() implies names.contains(#[trigger] subs@[i]@ + "."@ + domain) by {
            assert(labels.map_values(f)[i] == subs@[i]@ + "."@ + domain);
        }
        assert forall|n: Seq<char>| #[trigger] names.contains(n) implies
            exists|i: int| 0 <= i < subs@.len() && n == subs@[i]@ + "."@ + domain by {
            let i = choose|i: int| 0 <= i < labels.map_values(f).len() && labels.map_values(f)[i] == n;
            assert(n == subs@[i]@ + "."@ + domain);
        }
    }
}

proof fn lemma_line_names_members(lines: Seq<Seq<char>>)
    ensures
        forall|n: Seq<char>| #[trigger] line_names(lines).contains(n) <==>
            exists|j: int| 0 <= j < lines.len() && certificate_name(lines[j]) == Some(n),
    decreases lines.len(),
{
    if lines.len() == 0 {
        assert(line_names(lines) =~= Set::<Seq<char>>::empty());
    } else {
        let init = lines.drop_last();
        lemma_line_names_members(init);
        assert forall|n: Seq<char>| #[trigger] line_names(lines).contains(n) <==>
            exists|j: int| 0 <= j < lines.len() && certificate_name(lines[j]) == Some(n) by {
            if line_names(lines).contains(n) {
                if line_names(init).contains(n) {
                    let j = choose|j: int| 0 <= j < init.len() && certificate_name(init[j]) == Some(n);
                    assert(lines[j] == init[j]);
                } else {
                    assert(certificate_name(lines[lines.len() - 1]) == Some(n));
                }
            }
            if exists|j: int| 0 <= j < lines.len() && certificate_name(lines[j]) == Some(n) {
                let j = choose|j: int| 0 <= j < lines.len() && certificate_name(lines[j]) == Some(n);
                if j < lines.len() - 1 {
                    assert(init[j] == lines[j]);
                    assert(line_names(init).contains(n));
                } else {
                    assert(lines.last() == lines[j]);
                }
            }
        }
    }
}

proof fn lemma_entry_names_members(texts: Seq<Seq<char>>)
    ensures
        forall|n: Seq<char>| #[trigger] entry_names(texts).contains(n) <==>
            exists|i: int, j: int| 0 <= i < texts.len() && 0 <= j < split(texts[i], '\n').len()
                && certificate_name(#[trigger] split(texts[i], '\n')[j]) == Some(n),
    decreases texts.len(),
{
    if texts.len() == 0 {
        assert(entry_names(texts) =~= Set::<Seq<char>>::empty());
    } else {
        let init = texts.drop_last();
        let last_lines = split(texts.last(), '\n');
        lemma_entry_names_members(init);
        lemma_line_names_members(last_lines);
        assert forall|n: Seq<char>| #[trigger] entry_names(texts).contains(n) <==>
            exists|i: int, j: int| 0 <= i < texts.len() && 0 <= j < split(texts[i], '\n').len()
                && certificate_name(#[trigger] split(texts[i], '\n')[j]) == Some(n) by {
            if entry_names(texts).contains(n) {
                if entry_names(init).contains(n) {
                    let (i, j) = choose|i: int, j: int| 0 <= i < init.len() && 0 <= j < split(init[i], '\n').len()
                        && certificate_name(#[trigger] split(init[i], '\n')[j]) == Some(n);
                    assert(texts[i] == init[i]);
                } else {
                    assert(line_names(last_lines).contains(n));
                    let j = choose|j: int| 0 <= j < last_lines.len() && certificate_name(last_lines[j]) == Some(n);
                    assert(texts[texts.len() - 1] == texts.last());
                    assert(certificate_name(split(texts[texts.len() - 1], '\n')[j]) == Some(n));
                }
            }
            if exists|i: int, j: int| 0 <= i < texts.len() && 0 <= j < split(texts[i], '\n').len()
                && certificate_name(#[trigger] split(texts[i], '\n')[j]) == Some(n) {
                let (i, j) = choose|i: int, j: int| 0 <= i < texts.len() && 0 <= j < split(texts[i], '\n').len()
                    && certificate_name(#[trigger] split(texts[i], '\n')[j]) == Some(n);
                if i < texts.len() - 1 {
                    assert(init[i] == texts[i]);
                    assert(certificate_name(split(init[i], '\n')[j]) == Some(n));
                    assert(entry_names(init).contains(n));
                } else {
                    assert(texts.last() == texts[i]);
                    assert(certificate_name(last_lines[j]) == Some(n));
                    assert(line_names(last_lines).contains(n));
                }
            }
        }
    }
}

/// crt.sh's answer yields exactly the names of the non-blank lines of every
/// entry's `name_value`, at any index: each line, trimmed, with every leading
/// `*.` removed when it begins with one. A failed fetch is passed on as it is.
pub proof fn lemma_crtsh_names_are_every_lines_name(response: Result<Vec<CrtshEntry>, FetchError>)
    ensures
        response matches Err(e) ==> crtsh::outcome(response) == Err::<Set<Seq<char>>, FetchError>(e),
        response matches Ok(entries) ==> (crtsh::outcome(response) matches Ok(names) && {
            &&& forall|i: int, j: int| 0 <= i < entries@.len() && 0 <= j < split(entries@[i].name_value@, '\n').len()
                ==> {
                    let t = trim(#[trigger] split(entries@[i].name_value@, '\n')[j]);
                    t.len() > 0 ==> names.contains(
                        if t.len() >= 2 && t[0] == '*' && t[1] == '.' { strip_prefixes(t, "*."@) } else { t })
                }
            &&& forall|n: Seq<char>| #[trigger] names.contains(n) ==>
                exists|i: int, j: int| 0 <= i < entries@.len() && 0 <= j < split(entries@[i].name_value@, '\n').len()
                    && {
                        let t = trim(#[trigger] split(entries@[i].name_value@, '\n')[j]);
                        t.len() > 0 && n == (if t.len() >= 2 && t[0] == '*' && t[1] == '.' { strip_prefixes(t, "*."@) } else { t })
                    }
        }),
{
    reveal_strlit("*.");
    if let Ok(entries) = response {
        let texts = entry_texts(entries@);
        lemma_entry_names_members(texts);
        assert forall|i: int| 0 <= i < entries@.len() implies #[trigger] texts[i] == entries@[i].name_value@ by {}
        assert forall|t: Seq<char>| starts_with(t, "*."@) <==> (t.len() >= 2 && t[0] == '*' && t[1] == '.') by {
            if t.len() >= 2 && t[0] == '*' && t[1] == '.' {
                assert(t.take(2) =~= "*."@);
            }
            if starts_with(t, "*."@) {
                assert(t.take(2)[0] == t[0] && t.take(2)[1] == t[1]);
            }
        }
        let names = entry_names(texts);
        assert forall|i: int, j: int| 0 <= i < entries@.len() && 0 <= j < split(entries@[i].name_value@, '\n').len()
            implies {
                let t = trim(#[trigger] split(entries@[i].name_value@, '\n')[j]);
                t.len() > 0 ==> names.contains(
                    if t.len() >= 2 && t[0] == '*' && t[1] == '.' { strip_prefixes(t, "*."@) } else { t })
            } by {
            assert(texts[i] == entries@[i].name_value@);
            let t = trim(split(texts[i], '\n')[j]);
            if t.len() > 0 {
                let n = if t.len() >= 2 && t[0] == '*' && t[1] == '.' { strip_prefixes(t, "*."@) } else { t };
                assert(certificate_name(split(texts[i], '\n')[j]) == Some(n));
            }
        }
        assert forall|n: Seq<char>| #[trigger] names.contains(n) implies
            exists|i: int, j: int| 0 <= i < entries@.len() && 0 <= j < split(entries@[i].name_value@, '\n').len()
                && {
                    let t = trim(#[trigger] split(entries@[i].name_value@, '\n')[j]);
                    t.len() > 0 && n == (if t.len() >= 2 && t[0] == '*' && t[1] == '.' { strip_prefixes(t, "*."@) } else { t })
                } by {
            let (i, j) = choose|i: int, j: int| 0 <= i < texts.len() && 0 <= j < split(texts[i], '\n').len()
                && certificate_name(#[trigger] split(texts[i], '\n')[j]) == Some(n);
            assert(texts[i] == entries@[i].name_value@);
        }
    }
}

/// The pieces joined back with `sep` between them.
pub open spec fn join(pieces: Seq<Seq<char>>, sep: char) -> Seq<char>
    decreases pieces.len(),
{
    if pieces.len() == 0 {
        Seq::empty()
    } else if pieces.len() == 1 {
        pieces[0]
    } else {
        join(pieces.drop_last(), sep).push(sep) + pieces.last()
    }
}

proof fn lemma_join_extend_last(pieces: Seq<Seq<char>>, sep: char, c: char)
    requires
        pieces.len() >= 1,
    ensures
        join(pieces.update(pieces.len() - 1, pieces.last().push(c)), sep) == join(pieces, sep).push(c),
{
    let q = pieces.update(pieces.len() - 1, pieces.last().push(c));
    if pieces.len() == 1 {
        assert(q[0] == pieces[0].push(c));
    } else {
        assert(q.drop_last() =~= pieces.drop_last());
        assert(q.last() == pieces.last().push(c));
        assert(join(q, sep) =~= join(pieces, sep).push(c));
    }
}

/// Splitting at `sep` loses nothing: the pieces, joined back with `sep`
/// between them, give the text again, and no piece holds `sep`.
pub proof fn lemma_split_joins_back(s: Seq<char>, sep: char)
    ensures
        join(split(s, sep), sep) == s,
        forall|i: int| 0 <= i < split(s, sep).len() ==> !(#[trigger] split(s, sep)[i]).contains(sep),
    decreases s.len(),
{
    lemma_split_pieces_lack_separator(s, sep);
    if s.len() == 0 {
        assert(join(split(s, sep), sep) =~= s);
    } else {
        let init = split(s.drop_last(), sep);
        lemma_split_joins_back(s.drop_last(), sep);
        if s.last() == sep {
            let q = init.push(Seq::<char>::empty());
            assert(q.drop_last() =~= init);
            assert(join(q, sep) =~= s.drop_last().push(sep));
            assert(s.drop_last().push(sep) =~= s);
        } else {
            lemma_join_extend_last(init, sep, s.last());
            assert(s.drop_last().push(s.last()) =~= s);
        }
    }
}

proof fn lemma_trim_start_index(s: Seq<char>) -> (lo: int)
    ensures
        0 <= lo <= s.len(),
        trim_start(s) == s.skip(lo),
        forall|k: int| 0 <= k < lo ==> is_whitespace(#[trigger] s[k]),
        lo < s.len() ==> !is_whitespace(s[lo]),
    decreases s.len(),
{
    if s.len() > 0 && is_whitespace(s[0]) {
        let l = lemma_trim_start_index(s.drop_first());
        assert(s.drop_first().skip(l) =~= s.skip(l + 1));
        assert forall|k: int| 0 <= k < l + 1 implies is_whitespace(#[trigger] s[k]) by {
            if k > 0 {
                assert(s[k] == s.drop_first()[k - 1]);
            }
        }
        assert(l + 1 < s.len() ==> s[l + 1] == s.drop_first()[l]);
        l + 1
    } else {
        assert(s.skip(0) =~= s);
        0
    }
}

proof fn lemma_trim_end_index(s: Seq<char>) -> (hi: int)
    ensures
        0 <= hi <= s.len(),
        trim_end(s) == s.take(hi),
        forall|k: int| hi <= k < s.len() ==> is_whitespace(#[trigger] s[k]),
        hi > 0 ==> !is_whitespace(s[hi - 1]),
    decreases s.len(),
{
    if s.len() > 0 && is_whitespace(s.last()) {
        let h = lemma_trim_end_index(s.drop_last());
        assert(s.drop_last().take(h) =~= s.take(h));
        assert forall|k: int| h <= k < s.len() implies is_whitespace(#[trigger] s[k]) by {
            if k < s.len() - 1 {
                assert(s[k] == s.drop_last()[k]);
            }
        }
        assert(h > 0 ==> s[h - 1] == s.drop_last()[h - 1]);
        h
    } else {
        assert(s.take(s.len() as int) =~= s);
        s.len() as int
    }
}

/// Trimming removes exactly the whitespace at both ends: what remains is a
/// stretch of the text that neither begins nor ends with whitespace, and
/// everything before and after it is whitespace.
pub proof fn lemma_trim_removes_only_outer_whitespace(s: Seq<char>)
    ensures
        exists|lo: int, hi: int| {
            &&& 0 <= lo <= hi <= s.len()
            &&& trim(s) == s.subrange(lo, hi)
            &&& forall|k: int| 0 <= k < lo ==> is_whitespace(#[trigger] s[k])
            &&& forall|k: int| hi <= k < s.len() ==> is_whitespace(#[trigger] s[k])
            &&& lo < hi ==> !is_whitespace(s[lo]) && !is_whitespace(s[hi - 1])
        },
{
    let lo = lemma_trim_start_index(s);
    let rest = s.skip(lo);
    let h = lemma_trim_end_index(rest);
    let hi = lo + h;
    assert(rest.take(h) =~= s.subrange(lo, hi));
    assert forall|k: int| hi <= k < s.len() implies is_whitespace(#[trigger] s[k]) by {
        assert(s[k] == rest[k - lo]);
    }
    if lo < hi {
        assert(s[lo] == rest[0]);
        assert(s[hi - 1] == rest[h - 1]);
        if h == 0 {
        }
    }
    assert({
        &&& 0 <= lo <= hi <= s.len()
        &&& trim(s) == s.subrange(lo, hi)
        &&& forall|k: int| 0 <= k < lo ==> is_whitespace(#[trigger] s[k])
        &&& forall|k: int| hi <= k < s.len() ==> is_whitespace(#[trigger] s[k])
        &&& lo < hi ==> !is_whitespace(s[lo]) && !is_whitespace(s[hi - 1])
    });
}

/// Removing leading repetitions of `p` removes only whole copies of `p`
/// from the front: what remains is the end of the text, and what went before
/// it is `p`, `m` times over.
pub proof fn lemma_strip_prefixes_removes_whole_copies(s: Seq<char>, p: Seq<char>) -> (m: nat)
    ensures
        s.len() - strip_prefixes(s, p).len() == m * p.len(),
        strip_prefixes(s, p) == s.skip((m * p.len()) as int),
        forall|k: int| 0 <= k < m ==> #[trigger] s.subrange(k * p.len(), k * p.len() + p.len()) == p,
    decreases s.len(),
{
    if p.len() > 0 && starts_with(s, p) {
        let rest = s.skip(p.len() as int);
        let m1 = lemma_strip_prefixes_removes_whole_copies(rest, p);
        let l = p.len() as int;
        assert((m1 + 1) * l == m1 * l + l) by (nonlinear_arith);
        assert(rest.skip(m1 * l) =~= s.skip((m1 + 1) * l));
        assert forall|k: int| 0 <= k < m1 + 1 implies #[trigger] s.subrange(k * l, k * l + l) == p by {
            if k == 0 {
                assert(s.subrange(0, l) =~= s.take(l));
            } else {
                let j = k - 1;
                assert(k * l == j * l + l) by (nonlinear_arith)
                    requires k == j + 1;
                assert(0 <= j * l && j * l + l <= m1 * l) by (nonlinear_arith)
                    requires 0 <= j, j < m1, 0 <= l;
                assert(rest.subrange(j * l, j * l + l) == p);
                assert(rest.subrange(j * l, j * l + l) =~= s.subrange(k * l, k * l + l));
            }
        }
        (m1 + 1) as nat
    } else {
        assert(s.skip(0) =~= s);
        0
    }
}

/// Removing trailing repetitions of `p` removes only whole copies of `p`
/// from the end: what remains is the start of the text, and what came after
/// it is `p`, `m` times over.
pub proof fn lemma_strip_suffixes_removes_whole_copies(s: Seq<char>, p: Seq<char>) -> (m: nat)
    ensures
        s.len() - strip_suffixes(s, p).len() == m * p.len(),
        strip_suffixes(s, p) == s.take(s.len() - m * p.len()),
        forall|k: int| 0 <= k < m ==> #[trigger] s.subrange(s.len() - (k + 1) * p.len(), s.len() - k * p.len()) == p,
    decreases s.len(),
{
    if p.len() > 0 && ends_with(s, p) {
        let l = p.len() as int;
        let rest = s.take(s.len() - l);
        let m1 = lemma_strip_suffixes_removes_whole_copies(rest, p);
        assert((m1 + 1) * l == m1 * l + l) by (nonlinear_arith);
        assert(rest.take(rest.len() - m1 * l) =~= s.take(s.len() - (m1 + 1) * l));
        assert forall|k: int| 0 <= k < m1 + 1 implies #[trigger] s.subrange(s.len() - (k + 1) * l, s.len() - k * l) == p by {
            if k == 0 {
                assert((k + 1) * l == l && k * l == 0) by (nonlinear_arith)
                    requires k == 0;
                assert(s.subrange(s.len() - l, s.len() as int) =~= s.skip(s.len() - l));
            } else {
                let j = k - 1;
                assert(k * l == j * l + l && (k + 1) * l == (j + 1) * l + l) by (nonlinear_arith)
                    requires k == j + 1;
                assert(0 <= j * l && (j + 1) * l <= m1 * l) by (nonlinear_arith)
                    requires 0 <= j, j < m1, 0 <= l;
                assert(rest.subrange(rest.len() - (j + 1) * l, rest.len() - j * l) == p);
                assert(rest.subrange(rest.len() - (j + 1) * l, rest.len() - j * l) =~= s.subrange(
                    s.len() - (k + 1) * l,
                    s.len() - k * l,
                ));
            }
        }
        (m1 + 1) as nat
    } else {
        assert(s.take(s.len() as int) =~= s);
        0
    }
}

/// The value of a digit character: `0`-`9`, then lower-case `a`-`f` for
/// ten to fifteen; -1 for any other character.
pub open spec fn digit_value(c: char) -> int {
    let n = c as u32;
    if 48 <= n <= 57 {
        n - 48
    } else if 97 <= n <= 102 {
        n - 87
    } else {
        -1
    }
}

/// The number that the digits spell in `base`, most significant first.
pub open spec fn read_number(digits: Seq<char>, base: int) -> int
    decreases digits.len(),
{
    if digits.len() == 0 {
        0
    } else {
        read_number(digits.drop_last(), base) * base + digit_value(digits.last())
    }
}

proof fn lemma_digit_text(d: nat)
    requires
        d < 16,
    ensures
        digit_text(d).len() == 1,
        digit_value(digit_text(d)[0]) == d,
{
    reveal_strlit("0");
    reveal_strlit("1");
    reveal_strlit("2");
    reveal_strlit("3");
    reveal_strlit("4");
    reveal_strlit("5");
    reveal_strlit("6");
    reveal_strlit("7");
    reveal_strlit("8");
    reveal_strlit("9");
    reveal_strlit("a");
    reveal_strlit("b");
    reveal_strlit("c");
    reveal_strlit("d");
    reveal_strlit("e");
    reveal_strlit("f");
}

proof fn lemma_digits_round_trip(n: nat, base: nat, text: Seq<char>)
    requires
        base == 10 || base == 16,
        text == (if base == 10 { decimal(n) } else { hexadecimal(n) }),
    ensures
        text.len() >= 1,
        read_number(text, base as int) == n,
        forall|i: int| 0 <= i < text.len() ==> 0 <= #[trigger] digit_value(text[i]) < base,
        text.len() > 1 ==> digit_value(text[0]) != 0,
    decreases n,
{
    if n < base {
        lemma_digit_text(n);
        assert(text.drop_last() =~= Seq::<char>::empty());
        assert(read_number(text.drop_last(), base as int) == 0);
        assert(0 * (base as int) == 0);
        assert(read_number(text, base as int) == read_number(text.drop_last(), base as int) * base
            + digit_value(text.last()));
    } else {
        let q = n / base;
        let d = (n % base) as nat;
        let head = if base == 10 { decimal(q) } else { hexadecimal(q) };
        lemma_digits_round_trip(q, base, head);
        lemma_digit_text(d);
        assert(text == head + digit_text(d));
        assert(text.drop_last() =~= head);
        assert(text.last() == digit_text(d)[0]);
        assert(q * base + d == n) by (nonlinear_arith)
            requires q == n / base, d == n % base, base > 0;
        assert forall|i: int| 0 <= i < text.len() implies 0 <= #[trigger] digit_value(text[i]) < base by {
            if i < head.len() {
                assert(text[i] == head[i]);
            }
        }
        if head.len() == 1 {
            assert(q > 0);
            assert(read_number(head, base as int) == read_number(Seq::<char>::empty(), base as int) * base + digit_value(head[0])) by {
                assert(head.drop_last() =~= Seq::<char>::empty());
            }
        }
        assert(text[0] == head[0]);
        assert(read_number(text, base as int) == read_number(head, base as int) * base + digit_value(
            text.last(),
        ));
    }
}

/// A number's decimal text spells that number: its characters are decimal
/// digits, read back in base ten they give the number, and it has no
/// leading zero.
pub proof fn lemma_decimal_spells_the_number(n: nat)
    ensures
        decimal(n).len() >= 1,
        read_number(decimal(n), 10) == n,
        forall|i: int| 0 <= i < decimal(n).len() ==> 0 <= #[trigger] digit_value(decimal(n)[i]) < 10,
        decimal(n).len() > 1 ==> digit_value(decimal(n)[0]) != 0,
{
    lemma_digits_round_trip(n, 10, decimal(n));
}

/// A number's hexadecimal text spells that number: its characters are
/// `0`-`9` and lower-case `a`-`f`, read back in base sixteen they give the
/// number, and it has no leading zero.
pub proof fn lemma_hexadecimal_spells_the_number(n: nat)
    ensures
        hexadecimal(n).len() >= 1,
        read_number(hexadecimal(n), 16) == n,
        forall|i: int| 0 <= i < hexadecimal(n).len() ==> 0 <= #[trigger] digit_value(hexadecimal(n)[i]) < 16,
        hexadecimal(n).len() > 1 ==> digit_value(hexadecimal(n)[0]) != 0,
{
    lemma_digits_round_trip(n, 16, hexadecimal(n));
}

} // verus!
