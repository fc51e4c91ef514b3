use repo_builder::driver::{
    build_any_needed, build_try, clean_pkgdir, AttemptOutcome, BuildTryResult, PkgStore,
};
use repo_builder::fetch::{download_netfile_source, map_sources_by_domain, next_fetch_action,
    FetchMethod};
use repo_builder::pkgbuild::Pkgbuild;
use repo_builder::sched::{
    cache_sources_mt, dispatch_domain, run_domain_schedule, wait_if_too_busy, wait_remaining,
    wait_thread_map, DomainSched, SchedStep,
};
use repo_builder::source::{NetfileProtocol, Protocol, Source};

fn netfile_source(name: &str, url: &str) -> Source {
    Source {
        name: name.as_bytes().to_vec(),
        protocol: Protocol::Netfile { protocol: NetfileProtocol::Https },
        url: url.as_bytes().to_vec(),
        hash_url: 0,
        ck: None,
        md5: None,
        sha1: None,
        sha224: None,
        sha256: Some(vec![1u8; 32]),
        sha384: None,
        sha512: None,
        b2: None,
    }
}

#[test]
fn scheduler_bound_never_exceeded() {
    let mut d = DomainSched { domain: 9, queued: vec![0, 1, 2, 3, 4], running: vec![] };
    let steps = vec![
        SchedStep::Dispatch,
        SchedStep::Finish { pos: 0, ok: true },
        SchedStep::Dispatch,
        SchedStep::Finish { pos: 1, ok: true },
        SchedStep::Finish { pos: 0, ok: true },
        SchedStep::Dispatch,
        SchedStep::Finish { pos: 0, ok: true },
        SchedStep::Finish { pos: 0, ok: true },
    ];
    let out = run_domain_schedule(&mut d, 2, &steps);
    assert_eq!(out.peak, 2);
    assert!(out.peak <= 2);
    assert_eq!(out.dispatched, 5);
    assert_eq!(out.harvested, 5);
    assert_eq!(out.failures, 0);
    assert_eq!(d.queued.len(), 0);
    assert_eq!(d.running.len(), 0);
}

#[test]
fn dispatch_fills_to_limit_from_queue_back() {
    let mut d = DomainSched { domain: 1, queued: vec![10, 11, 12], running: vec![] };
    let spawned = dispatch_domain(&mut d, 2);
    assert_eq!(spawned, vec![12, 11]);
    assert_eq!(d.running, vec![12, 11]);
    assert_eq!(d.queued, vec![10]);
}

#[test]
fn one_failure_marks_aggregate_but_siblings_finish() {
    let mut d = DomainSched { domain: 1, queued: vec![0, 1, 2], running: vec![] };
    let steps = vec![
        SchedStep::Dispatch,
        SchedStep::Finish { pos: 0, ok: false },
        SchedStep::Dispatch,
        SchedStep::Finish { pos: 0, ok: true },
        SchedStep::Finish { pos: 0, ok: true },
    ];
    let out = run_domain_schedule(&mut d, 3, &steps);
    assert_eq!(out.failures, 1);
    assert_eq!(out.harvested, 3);
    assert_eq!(d.queued.len(), 0);
    assert_eq!(d.running.len(), 0);
}

#[test]
fn dispatch_totals_equal_queue_consumption_per_partition() {
    let mut pools = vec![
        DomainSched { domain: 1, queued: vec![0, 1, 2, 3], running: vec![] },
        DomainSched { domain: 2, queued: vec![4, 5], running: vec![] },
    ];
    let steps = vec![
        vec![
            SchedStep::Dispatch,
            SchedStep::Finish { pos: 0, ok: true },
            SchedStep::Dispatch,
            SchedStep::Finish { pos: 0, ok: true },
            SchedStep::Finish { pos: 0, ok: true },
            SchedStep::Finish { pos: 0, ok: true },
        ],
        vec![SchedStep::Dispatch, SchedStep::Finish { pos: 1, ok: true }],
    ];
    let (outs, agg) = cache_sources_mt(&mut pools, 3, &steps);
    assert!(agg.is_ok());
    // Every dispatched job left the queue; every queued job of the drained
    // partition was dispatched and harvested.
    assert_eq!(outs[0].dispatched, 4);
    assert_eq!(outs[0].harvested, 4);
    assert_eq!(pools[0].queued.len(), 0);
    assert_eq!(pools[0].running.len(), 0);
    // The second partition was only partly driven: its accounting still
    // balances.
    assert_eq!(outs[1].dispatched, 2);
    assert_eq!(outs[1].harvested, 1);
    assert_eq!(pools[1].queued.len(), 0);
    assert_eq!(pools[1].running.len(), 1);
}

#[test]
fn cache_sources_mt_partitions_and_aggregates() {
    let mut pools = vec![
        DomainSched { domain: 1, queued: vec![0, 1], running: vec![] },
        DomainSched { domain: 2, queued: vec![2], running: vec![] },
    ];
    let steps = vec![
        vec![
            SchedStep::Dispatch,
            SchedStep::Finish { pos: 0, ok: true },
            SchedStep::Finish { pos: 0, ok: false },
        ],
        vec![SchedStep::Dispatch, SchedStep::Finish { pos: 0, ok: true }],
    ];
    let (outs, agg) = cache_sources_mt(&mut pools, 10, &steps);
    assert_eq!(outs.len(), 2);
    assert!(outs[0].peak <= 10 && outs[1].peak <= 10);
    assert!(agg.is_err());
}

#[test]
fn pool_admits_below_limit_and_harvests_at_limit() {
    let mut threads = vec![1, 2];
    assert!(wait_if_too_busy(&mut threads, 5, None).is_ok());
    assert_eq!(threads, vec![1, 2]);
    let r = wait_if_too_busy(&mut threads, 2, Some((0, false)));
    assert!(r.is_err());
    assert_eq!(threads, vec![2]);
}

#[test]
fn wait_remaining_joins_all_and_reports_any_failure() {
    let oks = vec![true, false, true];
    assert!(wait_remaining(vec![0, 2], &oks).is_ok());
    assert!(wait_remaining(vec![0, 1, 2], &oks).is_err());
}

#[test]
fn thread_map_harvest_tallies_across_domains() {
    let mut map = vec![
        DomainSched { domain: 1, queued: vec![], running: vec![10, 11, 12] },
        DomainSched { domain: 2, queued: vec![9], running: vec![20] },
    ];
    let fins = vec![vec![(1, true), (1, true)], vec![(0, false)]];
    let r = wait_thread_map(&mut map, &fins);
    assert!(r.is_err());
    assert_eq!(map[0].running.len(), 1);
    assert_eq!(map[1].running.len(), 0);
    assert_eq!(map[1].queued, vec![9]);
    // The same harvests with every job succeeding aggregate to a success.
    let mut map2 = vec![DomainSched { domain: 1, queued: vec![], running: vec![5, 6] }];
    assert!(wait_thread_map(&mut map2, &vec![vec![(0, true), (0, true)]]).is_ok());
    assert_eq!(map2[0].running.len(), 0);
}

#[test]
fn retry_bound_attempts_exactly_max() {
    let mut pb = Pkgbuild::init(&b"p".to_vec(), &b"https://x.org/p.git".to_vec());
    let outcomes = vec![
        AttemptOutcome { extract_ok: true, build_ok: false },
        AttemptOutcome { extract_ok: true, build_ok: false },
        AttemptOutcome { extract_ok: true, build_ok: false },
    ];
    let (r, temp_present) = build_try(&mut pb, &outcomes, 3);
    assert_eq!(r, BuildTryResult::FailedFinal);
    assert!(!temp_present);
    assert!(!pb.extracted);
}

#[test]
fn retry_stops_at_first_success() {
    let mut pb = Pkgbuild::init(&b"p".to_vec(), &b"https://x.org/p.git".to_vec());
    let outcomes = vec![
        AttemptOutcome { extract_ok: true, build_ok: false },
        AttemptOutcome { extract_ok: true, build_ok: true },
        AttemptOutcome { extract_ok: true, build_ok: false },
    ];
    let (r, temp_present) = build_try(&mut pb, &outcomes, 3);
    assert_eq!(r, BuildTryResult::Succeeded { used: 2 });
    assert!(temp_present);
}

#[test]
fn failed_extraction_is_fatal_at_once() {
    let mut pb = Pkgbuild::init(&b"p".to_vec(), &b"https://x.org/p.git".to_vec());
    let outcomes = vec![
        AttemptOutcome { extract_ok: false, build_ok: false },
        AttemptOutcome { extract_ok: true, build_ok: true },
        AttemptOutcome { extract_ok: true, build_ok: true },
    ];
    let (r, _) = build_try(&mut pb, &outcomes, 3);
    assert_eq!(r, BuildTryResult::ExtractFailed { used: 0 });
}

#[test]
fn aggregate_failure_keeps_sibling_artifacts() {
    let ids = vec![b"a-1".to_vec(), b"b-2".to_vec(), b"c-3".to_vec()];
    let results = vec![true, false, true];
    let mut store = PkgStore { published: vec![], updated: vec![], latest: vec![] };
    let r = build_any_needed(&ids, &results, &mut store);
    assert!(r.is_err());
    assert!(store.published.contains(&b"a-1".to_vec()));
    assert!(store.published.contains(&b"c-3".to_vec()));
    assert!(!store.published.contains(&b"b-2".to_vec()));
    assert!(store.updated.contains(&b"a-1".to_vec()));
    assert!(store.updated.contains(&b"c-3".to_vec()));
    store.link_latest(&ids);
    assert!(store.latest.contains(&b"a-1".to_vec()));
    assert!(!store.latest.contains(&b"b-2".to_vec()));
}

#[test]
fn fetch_schedule_retries_then_uses_proxy() {
    assert_eq!(
        next_fetch_action(NetfileProtocol::Https, true, 0),
        Some(FetchMethod::Direct)
    );
    assert_eq!(
        next_fetch_action(NetfileProtocol::Https, true, 3),
        Some(FetchMethod::Proxied)
    );
    assert_eq!(next_fetch_action(NetfileProtocol::Https, true, 5), None);
    assert_eq!(next_fetch_action(NetfileProtocol::Ftp, true, 3), None);
    assert_eq!(next_fetch_action(NetfileProtocol::Https, false, 3), None);
}

#[test]
fn download_exhausts_attempts_then_fails() {
    let verified = vec![false, false, false, false, false];
    assert!(download_netfile_source(NetfileProtocol::Https, true, &verified).is_err());
    assert!(download_netfile_source(NetfileProtocol::Rsync, false, &verified).is_err());
    let late = vec![false, false, false, true, false];
    assert_eq!(download_netfile_source(NetfileProtocol::Https, true, &late), Ok(4));
    // Without a proxy the fourth attempt is never made.
    assert!(download_netfile_source(NetfileProtocol::Https, false, &late).is_err());
}

#[test]
fn sources_group_by_domain() {
    let sources = vec![
        netfile_source("a", "https://example.com/a"),
        netfile_source("b", "https://example.com/b"),
        netfile_source("c", "https://other.org/c"),
    ];
    let groups = map_sources_by_domain(&sources).unwrap();
    assert_eq!(groups.len(), 2);
    assert_eq!(groups[0].sources.len(), 2);
    assert_eq!(groups[1].sources.len(), 1);
    assert_ne!(groups[0].domain, groups[1].domain);
}

#[test]
fn url_without_domain_is_config_error() {
    let sources = vec![netfile_source("a", "not a url")];
    assert!(map_sources_by_domain(&sources).is_err());
}

#[test]
fn clean_pkgdir_keeps_ids_and_convenience_trees() {
    let used = clean_pkgdir(&vec![b"zz-1".to_vec(), b"aa-2".to_vec(), b"zz-1".to_vec()]);
    assert_eq!(
        used,
        vec![b"aa-2".to_vec(), b"latest".to_vec(), b"updated".to_vec(), b"zz-1".to_vec()]
    );
}
