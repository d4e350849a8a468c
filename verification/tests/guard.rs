use tui_do_ui::guard::{
    digest, guard_production, matches_any, PROD_ADDR_DIGESTS, PROD_HOST_DIGESTS,
};

#[test]
fn every_way_of_naming_production_is_refused() {
    let hosts = [digest("prod-box")];
    let addrs = [digest("203.0.113.7"), digest("192.0.2.19")];

    for url in [
        "https://prod-box.example.net:8443",
        "https://PROD-BOX.example.net:8443",
        "https://prod-box.example.net:8443/",
        "https://prod-box.example.net./",
        "https://prod-box.example.net",
        "http://prod-box:8443",
        "https://203.0.113.7:8443",
        "https://192.0.2.19:8443",
        "not even a url prod-box",
    ] {
        assert!(
            matches_any(url, &hosts, &addrs),
            "{url} was not recognised as production"
        );
    }
}

#[test]
fn the_flag_is_honoured_and_harmless() {
    assert!(guard_production("https://vikunja.example.com", true).is_ok());
    assert!(guard_production("https://vikunja.example.com", false).is_ok());
}

#[test]
fn the_production_digests_are_populated_and_stable() {
    assert!(
        !PROD_HOST_DIGESTS.is_empty(),
        "no production host is guarded"
    );
    assert_eq!(
        PROD_ADDR_DIGESTS.len(),
        2,
        "both addresses reach production"
    );
    assert_eq!(digest("tui-do"), 0x315a_0487_6d29_cecd);
    assert_eq!(digest(""), 0xcbf2_9ce4_8422_2325);
}

#[test]
fn everything_that_is_not_production_still_starts() {
    let hosts = [digest("prod-box")];
    let addrs = [digest("203.0.113.7")];

    for url in [
        "https://dev-box.example.net:8443",
        "https://198.51.100.4:8443",
        "http://localhost:3456",
        "https://vikunja.example.com",
        "https://dev.example.com/?note=prod-box",
        "https://prod-box-notreally.example.com",
    ] {
        assert!(
            !matches_any(url, &hosts, &addrs),
            "{url} was wrongly treated as production"
        );
    }
}

#[test]
fn a_refusal_names_the_url_and_the_way_out() {
    let hosts = [digest("prod-box")];
    assert!(matches_any("https://prod-box", &hosts, &[]));
    let refused = tui_do_ui::guard::ProductionRefused {
        url: "https://prod-box".to_string(),
    };
    assert!(refused.message().starts_with("https://prod-box is the production server"));
    assert!(refused.message().contains("--i-know-this-is-prod"));
}
