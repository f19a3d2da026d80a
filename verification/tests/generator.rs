use backer::patterns::{
    extract_domain, generate_backup_urls, generate_simple_backup_urls, get_default_patterns,
    PatternGenerator,
};

#[test]
fn extract_domain_compound_tld() {
    assert_eq!(extract_domain("www.example.co.uk"), "example");
    // Three labels with a short middle one: the second-to-last label wins;
    // the compound-TLD rule asks for at least four labels.
    assert_eq!(extract_domain("example.co.uk"), "co");
}

#[test]
fn extract_domain_ip_is_itself() {
    assert_eq!(extract_domain("192.168.1.1"), "192.168.1.1");
}

#[test]
fn extract_domain_plain() {
    assert_eq!(extract_domain("www.example.com"), "example");
    assert_eq!(extract_domain("example.com"), "example");
    assert_eq!(extract_domain("localhost"), "localhost");
}

#[test]
fn default_candidates_include_expected_urls() {
    let patterns = get_default_patterns();
    let urls = generate_backup_urls("http://example.com", &patterns);
    assert!(urls.iter().any(|u| u == "http://example.com/backup.zip"));
    assert!(urls.iter().any(|u| u == "http://example.com/backup/backup.zip"));
}

#[test]
fn candidates_have_no_duplicates() {
    let patterns = get_default_patterns();
    let urls = generate_backup_urls("http://example.com", &patterns);
    for i in 0..urls.len() {
        for j in (i + 1)..urls.len() {
            assert_ne!(urls[i], urls[j], "duplicate candidate at {} and {}", i, j);
        }
    }
}

#[test]
fn tiers_are_disjoint_and_root_first() {
    let g = PatternGenerator::new();
    let (urls, root_count) = g.generate_urls_tiered("http://example.com").unwrap();
    assert!(root_count <= urls.len());
    let (roots, dirs) = urls.split_at(root_count);
    for r in roots {
        assert!(!r.contains("/backup/") && !r.contains("/backups/"), "{r}");
    }
    for d in dirs {
        assert!(!roots.contains(d));
        assert!(d.contains("/backup/") || d.contains("/backups/"), "{d}");
    }
}

#[test]
fn dir_tier_urls_have_one_more_segment() {
    let g = PatternGenerator::new();
    let (urls, root_count) = g.generate_urls_tiered("http://example.com").unwrap();
    let slashes = |s: &str| s.chars().filter(|c| *c == '/').count();
    let root_url = "http://example.com/example.zip";
    let dir_url = "http://example.com/backup/example.zip";
    assert!(urls[..root_count].iter().any(|u| u == root_url));
    assert!(urls[root_count..].iter().any(|u| u == dir_url));
    assert_eq!(slashes(dir_url), slashes(root_url) + 1);
}

#[test]
fn generate_urls_rejects_bad_target() {
    let g = PatternGenerator::new();
    assert!(g.generate_urls("not a url").is_err());
    assert!(g.generate_urls("mailto:user@example.com").is_err());
}

#[test]
fn domain_variants_cover_templates_and_clean_form() {
    let g = PatternGenerator::new();
    let variants = g.generate_domain_variants("my-site");
    assert_eq!(variants[0], "my-site");
    assert!(variants.iter().any(|v| v == "backup-my-site"));
    assert!(variants.iter().any(|v| v == "my-site-backup"));
    assert!(variants.iter().any(|v| v == "mysite"));
    let plain = g.generate_domain_variants("example");
    assert!(!plain.iter().any(|v| v == ""));
    assert!(!plain[1..].contains(&"example".to_string()) || plain[0] == "example");
}

#[test]
fn pattern_with_slash_is_a_full_path() {
    let patterns = vec!["db/dump".to_string()];
    let urls = generate_backup_urls("http://example.com", &patterns);
    assert!(urls.iter().any(|u| u == "http://example.com/db/dump"));
    assert!(!urls.iter().any(|u| u == "http://example.com/db/dump.rar"));
    assert!(urls.iter().any(|u| u == "http://example.com/backup/db/dump"));
}

#[test]
fn prefix_with_dot_is_not_recombined() {
    let mut g = PatternGenerator::new();
    g.prefixes.push("backup.zip".to_string());
    let urls = g.generate_urls("http://example.com").unwrap();
    assert!(urls.iter().any(|u| u == "http://example.com/backup.zip"));
    assert!(!urls.iter().any(|u| u == "http://example.com/backup.zip.rar"));
}

#[test]
fn full_path_under_dir_gets_dotless_twin() {
    let mut g = PatternGenerator::new();
    g.full_paths.push(".env".to_string());
    let urls = g.generate_urls("http://example.com").unwrap();
    assert!(urls.iter().any(|u| u == "http://example.com/.env"));
    assert!(urls.iter().any(|u| u == "http://example.com/backup/.env"));
    assert!(urls.iter().any(|u| u == "http://example.com/backup/env"));
}

#[test]
fn simple_fallback_uses_fixed_directories() {
    let patterns = vec!["backup.zip".to_string()];
    let urls = generate_simple_backup_urls("http://example.com", &patterns);
    assert_eq!(urls[0], "http://example.com/backup.zip");
    assert!(urls.iter().any(|u| u == "http://example.com/bak/backup.zip"));
    assert!(urls.iter().any(|u| u == "http://example.com/data/backup.zip"));
    assert_eq!(urls.len(), 7);
    let none = generate_simple_backup_urls("::::", &patterns);
    assert!(none.is_empty());
}

#[test]
fn pattern_lines_are_sorted_by_shape() {
    let mut g = PatternGenerator::new();
    let lines = vec![
        "  backup  ".to_string(),
        "# comment".to_string(),
        "".to_string(),
        ".env".to_string(),
        "db/dump.sql".to_string(),
        "bak".to_string(),
    ];
    g.add_pattern_lines(&lines);
    assert_eq!(g.prefixes, vec!["backup".to_string(), "bak".to_string()]);
    assert_eq!(g.full_paths, vec![".env".to_string(), "db/dump.sql".to_string()]);
}

#[test]
fn empty_pattern_lines_fall_back_to_stock_prefixes() {
    let mut g = PatternGenerator::new();
    let lines = vec!["# nothing".to_string(), "   ".to_string()];
    g.add_pattern_lines(&lines);
    assert_eq!(g.prefixes, vec!["backup".to_string(), "bak".to_string()]);
    assert!(g.full_paths.is_empty());
}

#[test]
fn placeholder_lines_append() {
    let mut g = PatternGenerator::new();
    let before = g.domain_placeholders.len();
    let lines = vec!["{domain}-copy".to_string(), "# skip".to_string()];
    g.add_domain_placeholder_lines(&lines);
    assert_eq!(g.domain_placeholders.len(), before + 1);
    assert_eq!(g.domain_placeholders.last().unwrap(), "{domain}-copy");
}

#[test]
fn patterns_from_lines_defaults_when_empty() {
    let pats = backer::patterns::patterns_from_lines(&vec!["# only comments".to_string()]);
    assert_eq!(pats, get_default_patterns());
    let kept = backer::patterns::patterns_from_lines(&vec![" a.zip ".to_string()]);
    assert_eq!(kept, vec!["a.zip".to_string()]);
}

#[test]
fn default_patterns_list_is_exact() {
    let pats = get_default_patterns();
    assert_eq!(pats.len(), 17);
    assert_eq!(pats[0], "backup.zip");
    assert_eq!(pats[11], "data.sql");
}

#[test]
fn common_backup_names() {
    let g = PatternGenerator::new();
    assert_eq!(
        g.get_common_backup_names(),
        vec!["backup".to_string(), "back".to_string(), "bak".to_string()]
    );
}

#[test]
fn common_root_domain_is_the_most_frequent() {
    let urls = vec![
        "http://a.example.com/x".to_string(),
        "http://b.example.com/y".to_string(),
        "http://other.net".to_string(),
        "not a url".to_string(),
    ];
    assert_eq!(
        backer::patterns::extract_common_root_domain(&urls),
        Some("example.com".to_string())
    );
    assert_eq!(backer::patterns::extract_common_root_domain(&Vec::new()), None);
    assert_eq!(
        backer::patterns::extract_common_root_domain(&vec!["gopher:/x".to_string()]),
        None
    );
}
