use abbs_update_checksum_core::classify_token;
use abbs_update_checksum_core::plan_field;
use abbs_update_checksum_core::EntryKind;
use abbs_update_checksum_core::RefreshError;

fn chars(s: &str) -> Vec<char> {
    s.chars().collect()
}

#[test]
fn classify_direct_url() {
    let tok = chars("tbl::https://example.org/pkg-1.0.tar.xz");
    match classify_token(&tok).unwrap() {
        EntryKind::Direct { url } => assert_eq!(url, "https://example.org/pkg-1.0.tar.xz"),
        other => panic!("expected a direct entry, got {:?}", other),
    }
}

#[test]
fn classify_bare_url_is_direct() {
    let tok = chars("https://example.org/pkg-1.0.tar.xz");
    match classify_token(&tok).unwrap() {
        EntryKind::Direct { url } => assert_eq!(url, "https://example.org/pkg-1.0.tar.xz"),
        other => panic!("expected a direct entry, got {:?}", other),
    }
}

#[test]
fn classify_vcs_transports_skip() {
    for t in ["git", "bzr", "svn", "hg", "bk", "GIT", "Git"] {
        let tok = chars(&format!("{}::https://example.org/repo", t));
        match classify_token(&tok).unwrap() {
            EntryKind::Skip => {}
            other => panic!("expected a skip entry for {}, got {:?}", t, other),
        }
    }
}

#[test]
fn classify_registry_lookup() {
    let tok = chars("pypi::version=1.2.3::mypkg");
    match classify_token(&tok).unwrap() {
        EntryKind::Registry { pkg, version } => {
            assert_eq!(pkg, "mypkg");
            assert_eq!(version, "1.2.3");
        }
        other => panic!("expected a registry entry, got {:?}", other),
    }
}

#[test]
fn classify_registry_without_version_fails() {
    let tok = chars("pypi::mypkg");
    assert_eq!(classify_token(&tok).unwrap_err(), RefreshError::Config);
}

#[test]
fn classify_vcs_with_options_skips() {
    let tok = chars("git::commit=tags/v3.113::https://github.com/lxgw/kose-font");
    match classify_token(&tok).unwrap() {
        EntryKind::Skip => {}
        other => panic!("expected a skip entry, got {:?}", other),
    }
}

#[test]
fn plan_field_keeps_token_count() {
    // One entry per source token, positions aligned.
    let key = "SRCS".to_string();
    let value = "git::https://a.example/r \
                 tbl::https://b.example/x.tar \
                 https://c.example/y.tar"
        .to_string();
    let plan = plan_field(&key, &value).unwrap();
    assert_eq!(plan.key, "SRCS");
    assert_eq!(plan.out_key, "CHKSUMS");
    assert_eq!(plan.entries.len(), 3);
    assert!(matches!(plan.entries[0], EntryKind::Skip));
    assert!(matches!(plan.entries[1], EntryKind::Direct { .. }));
    assert!(matches!(plan.entries[2], EntryKind::Direct { .. }));
}

#[test]
fn plan_field_arch_suffix_carries_over() {
    let key = "SRCS__amd64".to_string();
    let value = "https://a.example/x.tar".to_string();
    let plan = plan_field(&key, &value).unwrap();
    assert_eq!(plan.out_key, "CHKSUMS__amd64");
}

#[test]
fn plan_field_bad_token_fails_whole_field() {
    let key = "SRCS".to_string();
    let value = "https://a.example/x.tar pypi::mypkg".to_string();
    assert_eq!(plan_field(&key, &value).unwrap_err(), RefreshError::Config);
}
