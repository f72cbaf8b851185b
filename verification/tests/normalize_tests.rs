use hostparser::normalize::{compose_output, compose_root, Extraction, Normalizer};

#[test]
fn compose_root_joins_with_a_dot() {
    assert_eq!(compose_root("example", "com"), "example.com");
    assert_eq!(compose_root("example", "co.uk"), "example.co.uk");
}

#[test]
fn compose_output_needs_both_parts() {
    let both = Extraction {
        domain: Some(String::from("example")),
        suffix: Some(String::from("co.uk")),
    };
    assert_eq!(compose_output(Some(both)), Some(String::from("example.co.uk")));

    let no_suffix = Extraction { domain: Some(String::from("host")), suffix: None };
    assert_eq!(compose_output(Some(no_suffix)), None);

    let no_domain = Extraction { domain: None, suffix: Some(String::from("com")) };
    assert_eq!(compose_output(Some(no_domain)), None);

    assert_eq!(compose_output(None), None);
}

#[test]
fn url_with_multi_label_suffix_normalizes() {
    let n = Normalizer::new();
    assert_eq!(
        n.process_host("http://www.example.co.uk"),
        Some(String::from("example.co.uk"))
    );
}

#[test]
fn bare_subdomain_normalizes() {
    let n = Normalizer::new();
    assert_eq!(n.process_host("sub.example.com"), Some(String::from("example.com")));
}

#[test]
fn unresolvable_host_yields_no_line() {
    let n = Normalizer::new();
    assert_eq!(n.process_host("bad..not-a-real-suffix"), None);
}

#[test]
fn suffix_without_domain_yields_no_line() {
    let n = Normalizer::new();
    assert_eq!(n.process_host("com"), None);
}

#[test]
fn same_host_normalizes_the_same_every_call() {
    let n = Normalizer::new();
    let first = n.process_host("http://forums.bbc.co.uk");
    let second = n.process_host("http://forums.bbc.co.uk");
    assert_eq!(first, Some(String::from("bbc.co.uk")));
    assert_eq!(first, second);
}
