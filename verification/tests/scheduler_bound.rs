use abbs_update_checksum_core::FieldScheduler;

fn five_urls() -> Vec<Option<String>> {
    (0..5)
        .map(|i| Some(format!("https://example.org/{}", i)))
        .collect()
}

#[test]
fn scheduler_respects_concurrency_bound() {
    // With bound 2 and five fetchable entries, at most two fetches are
    // handed out before one completes.
    let mut sched = FieldScheduler::new(&five_urls(), 2);
    let a = sched.next_launch().expect("first launch");
    let b = sched.next_launch().expect("second launch");
    assert_eq!(a.0, 0);
    assert_eq!(b.0, 1);
    assert!(sched.next_launch().is_none());
    sched.complete(a.0, "sha256::a".to_string());
    let c = sched.next_launch().expect("third launch after one completion");
    assert_eq!(c.0, 2);
    assert!(sched.next_launch().is_none());
}

#[test]
fn scheduler_places_results_by_position() {
    // Completions arrive out of order; each result still lands at its
    // recorded position.
    let mut sched = FieldScheduler::new(&five_urls(), 5);
    let mut launched = Vec::new();
    while let Some((pos, url)) = sched.next_launch() {
        launched.push((pos, url));
    }
    assert_eq!(launched.len(), 5);
    for (pos, _url) in launched.into_iter().rev() {
        sched.complete(pos, format!("sha256::{}", pos));
    }
    assert!(sched.finished());
    let tokens = sched.results();
    assert_eq!(
        tokens,
        vec![
            "sha256::0".to_string(),
            "sha256::1".to_string(),
            "sha256::2".to_string(),
            "sha256::3".to_string(),
            "sha256::4".to_string(),
        ]
    );
}

#[test]
fn scheduler_skips_never_launch() {
    let urls = vec![None, Some("https://example.org/x".to_string()), None];
    let mut sched = FieldScheduler::new(&urls, 3);
    let (pos, url) = sched.next_launch().expect("one fetchable entry");
    assert_eq!(pos, 1);
    assert_eq!(url, "https://example.org/x");
    assert!(sched.next_launch().is_none());
    assert!(!sched.finished());
    sched.complete(pos, "sha256::x".to_string());
    assert!(sched.finished());
    assert_eq!(
        sched.results(),
        vec![
            "SKIP".to_string(),
            "sha256::x".to_string(),
            "SKIP".to_string()
        ]
    );
}
