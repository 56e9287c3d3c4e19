use yaset::address::{address_string, IpAddress};
use yaset::enumerate_subdomains;
use yaset::filter_valid;
use yaset::is_valid_subdomain_name;
use yaset::modules::asnmap;
use yaset::modules::chaos;
use yaset::modules::crtsh;
use yaset::modules::crtsh::CrtshEntry;
use yaset::modules::hprobe;
use yaset::modules::hprobe::{ProbeConfig, ProbePlan};
use yaset::modules::{Chaos, Crtsh, FetchError, SubdomainEnumerator};
use yaset::subdomains::SubdomainSet;
use yaset::text;

fn set_of(names: &[&str]) -> SubdomainSet {
    let mut s = SubdomainSet::new();
    for n in names {
        s.insert(n.to_string());
    }
    s
}

fn sorted(s: &SubdomainSet) -> Vec<String> {
    let mut v = s.to_vec();
    v.sort();
    v
}

fn entry(text: &str) -> CrtshEntry {
    CrtshEntry { name_value: text.to_string() }
}

#[test]
fn test_crtsh_enumerate() {
    // crt.sh lists, for example.com, certificates naming the domain itself,
    // its wildcard and some hosts.
    let entries = vec![
        entry("example.com\nwww.example.com"),
        entry("*.example.com"),
        entry("m.example.com"),
    ];
    let result = crtsh::enumerate(Ok(entries), "example.com");
    assert!(result.is_ok());
    let subdomains = result.unwrap();
    assert!(subdomains.contains("example.com"));
}

#[test]
fn test_chaos_enumerate() {
    let result = chaos::enumerate(Some(Ok(vec!["www".to_string(), "api".to_string()])), "example.com");
    assert!(result.is_ok());
    let subdomains = result.unwrap();
    assert!(subdomains.to_vec().iter().any(|s| s.ends_with("example.com")));
}

#[test]
fn text_trim_removes_unicode_whitespace() {
    assert_eq!(text::trim_str("  a b \t\n").as_str(), "a b");
    assert_eq!(text::trim_str("\u{3000}x\u{a0}").as_str(), "x");
    assert_eq!(text::trim_str(" \t ").as_str(), "");
    assert_eq!(text::trim_str("").as_str(), "");
}

#[test]
fn text_split_keeps_empty_pieces() {
    let pieces = text::split_str("a\n\nb\n", '\n');
    assert_eq!(pieces, vec!["a".to_string(), "".to_string(), "b".to_string(), "".to_string()]);
    assert_eq!(text::split_str("", '\n'), vec!["".to_string()]);
    assert_eq!(text::split_str("abc", '\n'), vec!["abc".to_string()]);
}

#[test]
fn text_strip_repeated_prefix_and_suffix() {
    assert_eq!(text::strip_prefixes_str("*.*.a.com", "*.").as_str(), "a.com");
    assert_eq!(text::strip_prefixes_str("a.com", "*.").as_str(), "a.com");
    assert_eq!(text::strip_prefixes_str("abc", "").as_str(), "abc");
    assert_eq!(text::strip_suffixes_str("acme.com.com", ".com").as_str(), "acme");
    assert_eq!(text::strip_suffixes_str("acme.org", ".com").as_str(), "acme.org");
    assert!(text::starts_with_str("https://x", "https://"));
    assert!(!text::starts_with_str("http", "https://"));
    assert!(text::ends_with_str("a.example.com", "example.com"));
    assert!(text::contains_char("a.b", '.'));
    assert!(!text::contains_char("ab", '.'));
    assert_eq!(text::concat3("a", "-", "b").as_str(), "a-b");
}

#[test]
fn subdomain_set_behaves_as_a_set() {
    let mut s = SubdomainSet::new();
    assert!(s.is_empty());
    assert!(s.insert("a.com".to_string()));
    assert!(!s.insert("a.com".to_string()));
    assert!(s.insert("b.com".to_string()));
    assert_eq!(s.len(), 2);
    assert!(s.contains("a.com"));
    assert!(!s.contains("c.com"));
    let mut t = set_of(&["b.com", "c.com"]);
    t.extend(s);
    assert_eq!(sorted(&t), vec!["a.com", "b.com", "c.com"]);
}

#[test]
fn crtsh_lines_are_trimmed_and_wildcards_reduced() {
    let entries = vec![
        entry("  www.example.com \n\n*.example.com\n*.*.dev.example.com"),
        entry("www.example.com"),
        entry("*."),
    ];
    let s = crtsh::enumerate(Ok(entries), "example.com").unwrap();
    assert_eq!(sorted(&s), vec!["", "dev.example.com", "example.com", "www.example.com"]);
}

#[test]
fn crtsh_failure_is_passed_on() {
    let r = crtsh::enumerate(Err(FetchError::Request("timeout".to_string())), "example.com");
    match r {
        Err(FetchError::Request(m)) => assert_eq!(m, "timeout"),
        _ => panic!("expected the request failure"),
    }
    let r = Crtsh.enumerate("example.com", Err(FetchError::Decode("bad json".to_string())));
    assert!(matches!(r, Err(FetchError::Decode(_))));
}

#[test]
fn crtsh_and_chaos_urls() {
    assert_eq!(crtsh::query_url("example.com").as_str(), "https://crt.sh/?q=%25.example.com&output=json");
    assert_eq!(
        chaos::query_url("example.com").as_str(),
        "https://dns.projectdiscovery.io/dns/example.com/subdomains"
    );
}

#[test]
fn chaos_names_are_qualified() {
    let r = Chaos.enumerate("example.com", Some(Ok(vec!["www".to_string(), "api".to_string(), "www".to_string()])));
    let s = r.unwrap();
    assert_eq!(sorted(&s), vec!["api.example.com", "www.example.com"]);
}

#[test]
fn chaos_without_key_is_empty_and_failure_passed_on() {
    let r = chaos::enumerate(None, "example.com").unwrap();
    assert_eq!(r.len(), 0);
    let r = chaos::enumerate(Some(Err(FetchError::Decode("x".to_string()))), "example.com");
    assert!(matches!(r, Err(FetchError::Decode(_))));
}

#[test]
fn validity_of_names() {
    assert!(is_valid_subdomain_name("a.example.com"));
    assert!(!is_valid_subdomain_name("*.example.com"));
    assert!(!is_valid_subdomain_name(""));
    assert!(!is_valid_subdomain_name(".example.com"));
    assert!(!is_valid_subdomain_name("localhost"));
    let kept = filter_valid(set_of(&["a.b", "*x.y", "", ".a.b", "nodot", "c.d"]));
    assert_eq!(sorted(&kept), vec!["a.b", "c.d"]);
}

#[test]
fn enumeration_merges_successful_sources_and_filters() {
    let crt = Ok(set_of(&["a.example.com", "*.example.com", "", "b.example.com"]));
    let ch = Ok(set_of(&["b.example.com", "c.example.com", ".x"]));
    let all = enumerate_subdomains(crt, ch);
    assert_eq!(sorted(&all), vec!["a.example.com", "b.example.com", "c.example.com"]);

    let crt = Err(FetchError::Request("down".to_string()));
    let ch = Ok(set_of(&["c.example.com"]));
    let all = enumerate_subdomains(crt, ch);
    assert_eq!(sorted(&all), vec!["c.example.com"]);

    let all = enumerate_subdomains(
        Err(FetchError::Request("down".to_string())),
        Err(FetchError::Request("down".to_string())),
    );
    assert!(all.is_empty());
}

#[test]
fn asnmap_organisation_and_url() {
    assert_eq!(asnmap::base_domain("hackerone.com").as_str(), "hackerone");
    assert_eq!(asnmap::base_domain("a.com.com").as_str(), "a");
    assert_eq!(asnmap::base_domain("example.org").as_str(), "example.org");
    assert_eq!(
        asnmap::query_url("hackerone.com").as_str(),
        "https://asn.projectdiscovery.io/api/v1/asnmap?org=hackerone"
    );
}

fn sample_entry() -> asnmap::AsnEntry {
    asnmap::AsnEntry {
        first_ip: "104.16.0.0".to_string(),
        last_ip: "104.16.255.255".to_string(),
        asn: 13335,
        country: "US".to_string(),
        org: "cloudflare".to_string(),
    }
}

#[test]
fn asnmap_error_report_means_no_entries() {
    let body = br#"{"error":"invalid key"}"#.to_vec();
    let r = asnmap::enumerate(Ok(body), Ok(vec![sample_entry()]));
    assert_eq!(r.unwrap().len(), 0);
}

#[test]
fn asnmap_plain_answer_gives_decoded_entries() {
    let body = br#"[{"first_ip":"104.16.0.0","last_ip":"104.16.255.255","asn":13335,"country":"US","org":"cloudflare"}]"#.to_vec();
    let r = asnmap::enumerate(Ok(body), Ok(vec![sample_entry()])).unwrap();
    assert_eq!(r.len(), 1);
    assert_eq!(r[0].asn, 13335);
    let r = asnmap::enumerate(Ok(b"not json".to_vec()), Err(FetchError::Decode("bad".to_string())));
    assert!(matches!(r, Err(FetchError::Decode(_))));
    let r = asnmap::enumerate(Err(FetchError::Request("down".to_string())), Ok(vec![]));
    assert!(matches!(r, Err(FetchError::Request(_))));
}

#[test]
fn asnmap_resolve_decides_by_error_report() {
    assert_eq!(asnmap::resolve(Ok(true), Ok(vec![sample_entry()])).unwrap().len(), 0);
    assert_eq!(asnmap::resolve(Ok(false), Ok(vec![sample_entry()])).unwrap().len(), 1);
    assert!(asnmap::resolve(Err(FetchError::Request("x".to_string())), Ok(vec![])).is_err());
}

#[test]
fn ip_blocks_are_slash_24() {
    let blocks = asnmap::calculate_ip_blocks(&IpAddress::V4([104, 16, 0, 0]), &IpAddress::V4([104, 16, 255, 255]));
    assert_eq!(blocks, vec!["104.16.0.0/24".to_string(), "104.16.255.255/24".to_string()]);
}

#[test]
fn probe_config_default() {
    let c = ProbeConfig::default();
    assert_eq!(c.concurrency, 50);
    assert_eq!(c.timeout, 10);
    assert_eq!(c.delay, 1);
    assert!(c.user_agent.is_none());
    assert_eq!(hprobe::MAX_REDIRECTS, 10);
}

#[test]
fn user_agent_selection() {
    let agents = hprobe::user_agents();
    assert_eq!(agents.len(), 4);
    let ua = hprobe::get_random_user_agent();
    assert!(agents.contains(&ua));
    let c = ProbeConfig { concurrency: 1, timeout: 1, delay: 0, user_agent: Some("probe/1".to_string()) };
    assert_eq!(hprobe::select_user_agent(&c).as_str(), "probe/1");
    let c = ProbeConfig::default();
    let ua = hprobe::select_user_agent(&c);
    assert!(agents.contains(&ua.as_str()));
}

#[test]
fn probe_plan_for_hosts() {
    match hprobe::plan_probe("https://a.example.com") {
        ProbePlan::AsGiven(u) => assert_eq!(u, "https://a.example.com"),
        _ => panic!("expected the host as given"),
    }
    match hprobe::plan_probe("a.example.com") {
        ProbePlan::BothSchemes { http, https } => {
            assert_eq!(http, "http://a.example.com");
            assert_eq!(https, "https://a.example.com");
        }
        _ => panic!("expected both schemes"),
    }
}

#[test]
fn alive_urls_follow_the_outcomes() {
    let given = hprobe::plan_probe("http://x.com");
    assert_eq!(hprobe::alive_urls(&given, Some(true), None), vec!["http://x.com".to_string()]);
    assert!(hprobe::alive_urls(&given, Some(false), None).is_empty());
    assert!(hprobe::alive_urls(&given, None, Some(true)).is_empty());

    let both = hprobe::plan_probe("x.com");
    assert_eq!(
        hprobe::alive_urls(&both, Some(true), Some(true)),
        vec!["http://x.com".to_string(), "https://x.com".to_string()]
    );
    assert_eq!(hprobe::alive_urls(&both, Some(false), Some(true)), vec!["https://x.com".to_string()]);
    // Only the http request answered, with success: the https address is reported.
    assert_eq!(hprobe::alive_urls(&both, Some(true), None), vec!["https://x.com".to_string()]);
    assert_eq!(hprobe::alive_urls(&both, None, Some(true)), vec!["https://x.com".to_string()]);
    assert!(hprobe::alive_urls(&both, None, None).is_empty());
    assert!(hprobe::alive_urls(&both, Some(false), Some(false)).is_empty());
}

#[test]
fn law_alive_urls_at_most_two_with_scheme() {
    for host in ["x.com", "http://x.com", "https://x.com"] {
        let plan = hprobe::plan_probe(host);
        for first in [None, Some(false), Some(true)] {
            for second in [None, Some(false), Some(true)] {
                let urls = hprobe::alive_urls(&plan, first, second);
                assert!(urls.len() <= 2);
                for u in &urls {
                    assert!(u.starts_with("http://") || u.starts_with("https://"));
                }
            }
        }
    }
}

#[test]
fn law_no_wildcard_names_from_crtsh() {
    let s = crtsh::enumerate(Ok(vec![entry("*.*.*.a.b\n *.c.d ")]), "a.b").unwrap();
    for n in s.to_vec() {
        assert!(!n.starts_with("*."));
    }
    assert_eq!(sorted(&s), vec!["a.b", "c.d"]);
}

#[test]
fn law_chaos_names_under_domain() {
    let s = chaos::enumerate(Some(Ok(vec!["".to_string(), "a.b".to_string()])), "ex.org").unwrap();
    for n in s.to_vec() {
        assert!(n.ends_with(".ex.org"));
    }
}

#[test]
fn law_organisation_never_ends_with_com() {
    for d in ["a.com", "a.com.com", ".com", "com", "a.org"] {
        assert!(!asnmap::base_domain(d).ends_with(".com"));
    }
}

#[test]
fn law_certificate_names_hold_no_line_break() {
    let s = crtsh::enumerate(Ok(vec![entry("a.b\r\nc.d\n\n *.e.f\n")]), "a.b").unwrap();
    for n in s.to_vec() {
        assert!(!n.contains('\n'));
    }
    assert_eq!(sorted(&s), vec!["a.b", "c.d", "e.f"]);
}

#[test]
fn asnmap_error_member_only_at_top_level_of_an_object() {
    assert!(!asnmap::error_reported(None));
    assert!(!asnmap::error_reported(Some(false)));
    assert!(asnmap::error_reported(Some(true)));
    // A null `error` member still reports an error.
    let r = asnmap::enumerate(Ok(br#"{"error":null}"#.to_vec()), Ok(vec![sample_entry()]));
    assert_eq!(r.unwrap().len(), 0);
    // An `error` member inside an array element is no report.
    let r = asnmap::enumerate(Ok(br#"[{"error":1}]"#.to_vec()), Ok(vec![sample_entry()]));
    assert_eq!(r.unwrap().len(), 1);
    // An unreadable body reports no error: the decoded result stands.
    let r = asnmap::enumerate(Ok(b"{oops".to_vec()), Ok(vec![sample_entry()]));
    assert_eq!(r.unwrap().len(), 1);
}

#[test]
fn address_text_is_canonical() {
    let t = |a: IpAddress| address_string(&a);
    assert_eq!(t(IpAddress::V4([0, 0, 0, 0])), "0.0.0.0");
    assert_eq!(t(IpAddress::V4([192, 168, 10, 255])), "192.168.10.255");
    assert_eq!(t(IpAddress::V6([0, 0, 0, 0, 0, 0, 0, 0])), "::");
    assert_eq!(t(IpAddress::V6([0, 0, 0, 0, 0, 0, 0, 1])), "::1");
    assert_eq!(t(IpAddress::V6([0x2001, 0xdb8, 0, 0, 0, 0, 0, 1])), "2001:db8::1");
    assert_eq!(t(IpAddress::V6([0x2001, 0xdb8, 0, 1, 0, 0, 0, 1])), "2001:db8:0:1::1");
    assert_eq!(t(IpAddress::V6([1, 0, 0, 2, 0, 0, 3, 4])), "1::2:0:0:3:4");
    assert_eq!(t(IpAddress::V6([1, 0, 2, 0, 3, 0, 4, 0])), "1:0:2:0:3:0:4:0");
    assert_eq!(t(IpAddress::V6([0xfe80, 0, 0, 0, 0xabcd, 0, 0, 0])), "fe80::abcd:0:0:0");
    assert_eq!(t(IpAddress::V6([1, 2, 3, 4, 5, 6, 7, 0])), "1:2:3:4:5:6:7:0");
    assert_eq!(t(IpAddress::V6([0, 0, 0, 0, 0, 0xffff, 0x0102, 0x0304])), "::ffff:1.2.3.4");
    assert_eq!(t(IpAddress::V6([0xffff, 0xffff, 0, 0, 0, 0, 0xffff, 0xffff])), "ffff:ffff::ffff:ffff");
    assert_eq!(t(IpAddress::V6([0, 0, 0, 0, 0, 0, 0x0102, 0x0304])), "::102:304");
}

#[test]
fn ip_blocks_of_v6_addresses() {
    let blocks = asnmap::calculate_ip_blocks(
        &IpAddress::V6([0x2606, 0x4700, 0, 0, 0, 0, 0, 0]),
        &IpAddress::V6([0x2606, 0x4700, 0xffff, 0, 0, 0, 0, 0x10]),
    );
    assert_eq!(blocks, vec!["2606:4700::/24".to_string(), "2606:4700:ffff::10/24".to_string()]);
}
