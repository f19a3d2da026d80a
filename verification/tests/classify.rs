use backer::catalog::{is_backup_file_extension, is_valid_backup_content_type};
use backer::classify::{classify_redirect, classify_response, ProbeAction};

#[test]
fn small_sql_file_is_no_discovery() {
    let a = classify_response("http://h/data.sql", 200, None, Some(50), false, false);
    assert!(matches!(a, ProbeAction::NoDiscovery));
}

#[test]
fn large_sql_file_is_discovery_with_caller_verify_flag() {
    let a = classify_response("http://h/data.sql", 200, None, Some(5000), false, true);
    match a {
        ProbeAction::Discovery(r) => {
            assert_eq!(r.url, "http://h/data.sql");
            assert_eq!(r.status_code, 200);
            assert_eq!(r.content_length, Some(5000));
            assert!(r.verified);
        },
        _ => panic!("expected a discovery"),
    }
    let b = classify_response("http://h/data.sql", 200, None, Some(5000), false, false);
    match b {
        ProbeAction::Discovery(r) => assert!(!r.verified),
        _ => panic!("expected a discovery"),
    }
}

#[test]
fn missing_length_counts_as_discovery() {
    let a = classify_response("http://h/site.zip", 200, None, None, false, false);
    assert!(matches!(a, ProbeAction::Discovery(_)));
}

#[test]
fn ok_on_non_catalog_path_is_no_discovery() {
    let a = classify_response("http://h/index.html", 200, None, Some(5000), false, false);
    assert!(matches!(a, ProbeAction::NoDiscovery));
}

#[test]
fn forbidden_catalog_path_is_unverified_discovery() {
    let a = classify_response(
        "http://h/backup.tar.gz",
        403,
        Some("text/html".to_string()),
        Some(1234),
        false,
        true,
    );
    match a {
        ProbeAction::Discovery(r) => {
            assert_eq!(r.status_code, 403);
            assert!(!r.verified);
            assert_eq!(r.content_type, Some("text/html".to_string()));
        },
        _ => panic!("expected a discovery"),
    }
}

#[test]
fn forbidden_other_path_is_no_discovery() {
    let a = classify_response("http://h/admin", 403, None, None, false, false);
    assert!(matches!(a, ProbeAction::NoDiscovery));
}

#[test]
fn redirect_without_catalog_match_is_dropped() {
    let a = classify_response("http://h/page", 302, None, None, true, false);
    assert!(matches!(a, ProbeAction::NoDiscovery));
}

#[test]
fn redirect_on_catalog_match_with_location_is_followed() {
    let a = classify_response("http://h/backup.zip", 302, None, None, true, false);
    assert!(matches!(a, ProbeAction::FollowRedirect));
    let b = classify_response("http://h/backup.zip", 302, None, None, false, false);
    assert!(matches!(b, ProbeAction::NoDiscovery));
}

#[test]
fn redirect_outcome_keeps_original_url() {
    let r = classify_redirect("http://h/backup.zip", 200, None, Some(9000)).unwrap();
    assert_eq!(r.url, "http://h/backup.zip");
    assert_eq!(r.status_code, 200);
    assert!(!r.verified);
    assert!(classify_redirect("http://h/backup.zip", 404, None, None).is_none());
    assert!(classify_redirect("http://h/backup.zip", 302, None, None).is_none());
}

#[test]
fn other_statuses_are_no_discovery() {
    for status in [204u16, 400, 404, 500, 503] {
        let a = classify_response("http://h/backup.zip", status, None, Some(5000), true, true);
        assert!(matches!(a, ProbeAction::NoDiscovery), "status {status}");
    }
}

#[test]
fn catalog_matches_are_case_insensitive() {
    assert!(is_backup_file_extension("http://h/BACKUP.ZIP"));
    assert!(is_backup_file_extension("http://h/dump.SQL"));
    assert!(is_backup_file_extension("http://h/.git/config"));
    assert!(is_backup_file_extension("http://h/.git/HEAD"));
    assert!(is_backup_file_extension("http://h/a.config.php"));
    assert!(is_backup_file_extension("http://h/site_backup"));
    assert!(!is_backup_file_extension("http://h/index.html"));
    assert!(!is_backup_file_extension("http://h/zip"));
}

#[test]
fn content_type_plausibility() {
    assert!(is_valid_backup_content_type("application/zip", "http://h/a.zip"));
    assert!(is_valid_backup_content_type("APPLICATION/OCTET-STREAM", "http://h/a.zip"));
    assert!(!is_valid_backup_content_type("text/html", "http://h/a.zip"));
    assert!(is_valid_backup_content_type("text/plain", "http://h/a.sql"));
    assert!(is_valid_backup_content_type("anything", "http://h/a.bak"));
    assert!(!is_valid_backup_content_type("text/html", "http://h/a.png"));
    assert!(is_valid_backup_content_type("x", "http://h/a.tmp"));
}
