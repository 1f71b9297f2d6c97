use wrap_client::uri::{Uri, str_chars};

#[test]
fn parse_with_scheme_prefix() {
    let u = Uri::parse("wrap://ens/a").unwrap();
    assert!(u.authority == str_chars("ens"));
    assert!(u.path == str_chars("a"));
}

#[test]
fn parse_without_scheme_prefix() {
    let u = Uri::parse("ens/a").unwrap();
    assert!(u.authority == str_chars("ens"));
    assert!(u.path == str_chars("a"));
}

#[test]
fn parse_deep_path() {
    let u = Uri::parse("wrap://ens/external-env.polywrap.eth").unwrap();
    assert!(u.authority == str_chars("ens"));
    assert!(u.path == str_chars("external-env.polywrap.eth"));
}

#[test]
fn parse_path_with_slashes() {
    let u = Uri::parse("wrap://fs/some/deep/dir").unwrap();
    assert!(u.authority == str_chars("fs"));
    assert!(u.path == str_chars("some/deep/dir"));
}

#[test]
fn parse_rejects_empty_authority() {
    assert!(Uri::parse("wrap:///a").is_err());
    assert!(Uri::parse("/a").is_err());
}

#[test]
fn parse_rejects_empty_path() {
    assert!(Uri::parse("wrap://ens/").is_err());
    assert!(Uri::parse("ens").is_err());
    assert!(Uri::parse("").is_err());
}

#[test]
fn parse_rejects_bad_authority_character() {
    assert!(Uri::parse("wrap://e$s/a").is_err());
    assert!(Uri::parse("wrap://e s/a").is_err());
}

#[test]
fn parse_accepts_authority_charset() {
    let u = Uri::parse("wrap://A-b_9/x").unwrap();
    assert!(u.authority == str_chars("A-b_9"));
}

#[test]
fn uri_equality_is_structural() {
    let a = Uri::parse("wrap://ens/a").unwrap();
    let b = Uri::parse("ens/a").unwrap();
    let c = Uri::parse("ens/b").unwrap();
    assert!(a.eq_uri(&b));
    assert!(a == b);
    assert!(!a.eq_uri(&c));
    assert!(a != c);
}

#[test]
fn uri_clone_preserves_parts() {
    let a = Uri::parse("wrap://ens/a").unwrap();
    let b = a.clone();
    assert!(a.eq_uri(&b));
}

#[test]
fn canonical_form_includes_scheme() {
    let u = Uri::parse("ens/a").unwrap();
    assert_eq!(u.to_uri_string(), "wrap://ens/a");
}

#[test]
fn canonical_form_round_trips() {
    let u = Uri::parse("wrap://fs/some/dir").unwrap();
    let v = Uri::parse(&u.to_uri_string()).unwrap();
    assert!(u.eq_uri(&v));
}
