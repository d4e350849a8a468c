use tui_do_ui::server::{host_of, normalise_url, UrlError};

#[test]
fn a_bare_host_is_assumed_to_be_https() {
    assert_eq!(
        normalise_url("vikunja.example.com").unwrap(),
        "https://vikunja.example.com"
    );
}

#[test]
fn a_trailing_slash_is_taken_off() {
    assert_eq!(
        normalise_url("https://vikunja.example.com/").unwrap(),
        "https://vikunja.example.com"
    );
}

#[test]
fn an_explicit_scheme_is_kept() {
    assert_eq!(
        normalise_url("http://box.lan:3456").unwrap(),
        "http://box.lan:3456"
    );
}

#[test]
fn a_scheme_that_is_not_http_is_refused() {
    assert!(normalise_url("ftp://vikunja.example.com").is_err());
    assert!(normalise_url("   ").is_err());
}

#[test]
fn each_refusal_says_what_was_wrong() {
    assert_eq!(normalise_url("  / "), Err(UrlError::Missing));
    assert_eq!(
        normalise_url("ftp://x.example"),
        Err(UrlError::Scheme("ftp".to_string()))
    );
    assert_eq!(
        UrlError::Scheme("ftp".to_string()).message(),
        "ftp is not a scheme tui-do can use; give an http or https URL."
    );
    assert!(matches!(normalise_url("https://exa mple.com"), Err(UrlError::NotAUrl(_))));
}

#[test]
fn a_host_is_lowercased_and_loses_its_trailing_dot() {
    assert_eq!(
        host_of("https://Prod-Box.Example.net.:8443/x").as_deref(),
        Some("prod-box.example.net")
    );
    assert_eq!(host_of("not a url"), None);
}
