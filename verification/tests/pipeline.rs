use abbs_update_checksum_core::apply_results;
use abbs_update_checksum_core::collect_checksums;
use abbs_update_checksum_core::field_changed;
use abbs_update_checksum_core::parse_from_str;
use abbs_update_checksum_core::plan_sources;
use abbs_update_checksum_core::Context;
use abbs_update_checksum_core::EntryKind;
use abbs_update_checksum_core::FieldScheduler;
use abbs_update_checksum_core::UpdateChecksumResult;

#[test]
fn change_detection_is_order_insensitive() {
    // Reordering the stored tokens never flips the verdict.
    let new = vec!["sha256::aaa".to_string(), "SKIP".to_string()];
    let stored_one_way = "sha256::aaa SKIP".to_string();
    let stored_other_way = "SKIP sha256::aaa".to_string();
    assert!(!field_changed(Some(&stored_one_way), &new));
    assert!(!field_changed(Some(&stored_other_way), &new));
}

#[test]
fn change_detection_sees_new_value() {
    let new = vec!["sha256::bbb".to_string()];
    let stored = "sha256::aaa".to_string();
    assert!(field_changed(Some(&stored), &new));
}

#[test]
fn change_detection_missing_field_counts_as_changed() {
    let new = vec!["SKIP".to_string()];
    assert!(field_changed(None, &new));
}

#[test]
fn refresh_is_idempotent_at_the_detector() {
    // Once a field holds exactly the computed tokens, a second run with the
    // same tokens reports no change.
    let mut ctx = Context::new();
    let tokens = vec!["SKIP".to_string(), "sha256::abc".to_string()];
    let first = apply_results(
        &mut ctx,
        &vec![("CHKSUMS".to_string(), tokens.clone())],
    );
    assert!(first);
    let second = apply_results(
        &mut ctx,
        &vec![("CHKSUMS".to_string(), tokens)],
    );
    assert!(!second);
}

#[test]
fn all_vcs_sources_become_all_skip() {
    // A recipe with only version-control sources yields an all-SKIP
    // checksum list of the same length, and the change verdict depends on
    // whether the stored field was already all-SKIP.
    let strict = Ok(vec![
        (
            "SRCS".to_string(),
            "git::https://a.example/r hg::https://b.example/r".to_string(),
        ),
        ("CHKSUMS".to_string(), "SKIP SKIP".to_string()),
    ]);
    let ctx = parse_from_str("", strict, false).unwrap();
    let plans = plan_sources(&ctx).unwrap();
    assert_eq!(plans.len(), 1);
    let plan = &plans[0];
    assert_eq!(plan.entries.len(), 2);
    assert!(plan.entries.iter().all(|e| matches!(e, EntryKind::Skip)));

    let urls: Vec<Option<String>> = plan
        .entries
        .iter()
        .map(|e| match e {
            EntryKind::Skip => None,
            EntryKind::Direct { url } => Some(url.clone()),
            EntryKind::Registry { pkg, .. } => Some(pkg.clone()),
        })
        .collect();
    let sched = FieldScheduler::new(&urls, 4);
    assert!(sched.finished());
    let tokens = sched.results();
    assert_eq!(tokens, vec!["SKIP".to_string(), "SKIP".to_string()]);

    let mut ctx = ctx;
    let changed = apply_results(&mut ctx, &vec![(plan.out_key.clone(), tokens)]);
    assert!(!changed);

    let out = UpdateChecksumResult {
        changed,
        result: collect_checksums(&ctx),
    };
    assert!(!out.changed);
    assert_eq!(
        out.result,
        vec![(
            "CHKSUMS".to_string(),
            vec!["SKIP".to_string(), "SKIP".to_string()]
        )]
    );
}

#[test]
fn all_vcs_sources_against_missing_field_count_as_changed() {
    let mut ctx = Context::new();
    let changed = apply_results(
        &mut ctx,
        &vec![("CHKSUMS".to_string(), vec!["SKIP".to_string()])],
    );
    assert!(changed);
}

#[test]
fn checksum_list_keeps_source_token_count() {
    // The output token list of a field has exactly as many tokens as the
    // field's source list, whatever mix of entries it holds.
    let strict = Ok(vec![(
        "SRCS".to_string(),
        "git::https://a.example/r https://b.example/x.tar tbl::https://c.example/y.tar"
            .to_string(),
    )]);
    let ctx = parse_from_str("", strict, false).unwrap();
    let plans = plan_sources(&ctx).unwrap();
    let plan = &plans[0];
    assert_eq!(plan.entries.len(), 3);

    let urls: Vec<Option<String>> = plan
        .entries
        .iter()
        .map(|e| match e {
            EntryKind::Skip => None,
            EntryKind::Direct { url } => Some(url.clone()),
            EntryKind::Registry { pkg, .. } => Some(pkg.clone()),
        })
        .collect();
    let mut sched = FieldScheduler::new(&urls, 2);
    while let Some((pos, _url)) = sched.next_launch() {
        sched.complete(pos, format!("sha256::{:08}", pos));
    }
    assert!(sched.finished());
    let tokens = sched.results();
    assert_eq!(tokens.len(), 3);
    assert_eq!(tokens[0], "SKIP");
    assert_eq!(tokens[1], "sha256::00000001");
    assert_eq!(tokens[2], "sha256::00000002");
}

#[test]
fn collect_checksums_splits_stored_values() {
    let mut ctx = Context::new();
    ctx.insert("CHKSUMS".to_string(), "sha256::a SKIP".to_string());
    ctx.insert("CHKSUMS__loongson3".to_string(), "SKIP".to_string());
    ctx.insert("VER".to_string(), "1.0".to_string());
    let out = collect_checksums(&ctx);
    assert_eq!(
        out,
        vec![
            (
                "CHKSUMS".to_string(),
                vec!["sha256::a".to_string(), "SKIP".to_string()]
            ),
            ("CHKSUMS__loongson3".to_string(), vec!["SKIP".to_string()]),
        ]
    );
}
