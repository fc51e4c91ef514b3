use repo_builder::integ::{get_integ_files, cache_netfile_source, CacheAction, DigestKind};
use repo_builder::source::{
    merge_sources, push_git_sources, push_netfile_sources, unique_sources, NetfileProtocol,
    Protocol, Source, VcsProtocol,
};

fn plain_source(name: &str, url: &str, sha256: Option<Vec<u8>>, sha512: Option<Vec<u8>>) -> Source {
    Source {
        name: name.as_bytes().to_vec(),
        protocol: Protocol::Netfile { protocol: NetfileProtocol::Https },
        url: url.as_bytes().to_vec(),
        hash_url: 7,
        ck: None,
        md5: None,
        sha1: None,
        sha224: None,
        sha256,
        sha384: None,
        sha512,
        b2: None,
    }
}

#[test]
fn integ_files_one_per_digest() {
    let mut s = plain_source("a", "https://x.org/a", Some(vec![0xab; 32]), None);
    s.ck = Some(0xdeadbeef);
    let files = get_integ_files(&s);
    assert_eq!(files.len(), 2);
    assert_eq!(files[0].kind, DigestKind::Ck);
    assert_eq!(files[0].path(), b"sources/file-ck/deadbeef".to_vec());
    assert_eq!(files[1].kind, DigestKind::Sha256);
    let mut want = b"sources/file-sha256/".to_vec();
    want.extend(std::iter::repeat(b"ab").take(32).flatten());
    assert_eq!(files[1].path(), want);
}

#[test]
fn integ_files_empty_without_digests() {
    let s = plain_source("a", "https://x.org/a", None, None);
    assert_eq!(get_integ_files(&s).len(), 0);
}

#[test]
fn cache_plan_backfills_by_clone_only() {
    // Known good under one digest, newly declared under another: the plan
    // clones locally, it never downloads.
    let plan = cache_netfile_source(&vec![true, false]).unwrap();
    assert_eq!(plan.len(), 1);
    assert_eq!(plan[0], CacheAction::CloneFrom { good: 0, bad: 1 });
}

#[test]
fn cache_plan_downloads_once_when_nothing_good() {
    let plan = cache_netfile_source(&vec![false, false, false]).unwrap();
    assert_eq!(plan.len(), 3);
    assert_eq!(plan[0], CacheAction::Download { bad: 2 });
    assert_eq!(plan[1], CacheAction::CloneFrom { good: 2, bad: 1 });
    assert_eq!(plan[2], CacheAction::CloneFrom { good: 1, bad: 0 });
}

#[test]
fn cache_plan_rejects_empty() {
    assert!(cache_netfile_source(&vec![]).is_err());
}

#[test]
fn merge_unions_disjoint_digests() {
    let a = plain_source("a", "https://x.org/f", Some(vec![2u8; 32]), None);
    let mut b = plain_source("a", "https://x.org/f", None, None);
    b.sha512 = Some(vec![3u8; 64]);
    let m = merge_sources(&a, &b).unwrap();
    assert_eq!(m.sha256, Some(vec![2u8; 32]));
    assert_eq!(m.sha512, Some(vec![3u8; 64]));
    assert_eq!(m.name, b"a".to_vec());
}

#[test]
fn merge_conflicting_digest_is_error() {
    let a = plain_source("a", "https://x.org/f", Some(vec![2u8; 32]), None);
    let b = plain_source("a", "https://x.org/f", Some(vec![9u8; 32]), None);
    assert!(merge_sources(&a, &b).is_err());
}

#[test]
fn merge_with_itself_changes_nothing() {
    let a = plain_source("a", "https://x.org/f", Some(vec![2u8; 32]), None);
    let m = merge_sources(&a, &a).unwrap();
    assert_eq!(m.sha256, a.sha256);
    assert_eq!(m.url, a.url);
}

#[test]
fn push_netfile_merges_on_shared_digest() {
    let mut list: Vec<Source> = Vec::new();
    let a = plain_source("one", "https://x.org/f", Some(vec![2u8; 32]), None);
    push_netfile_sources(&mut list, &a).unwrap();
    let mut b = plain_source("two", "https://mirror.net/f", Some(vec![2u8; 32]), None);
    b.sha512 = Some(vec![4u8; 64]);
    push_netfile_sources(&mut list, &b).unwrap();
    assert_eq!(list.len(), 1);
    assert_eq!(list[0].name, b"one".to_vec());
    assert_eq!(list[0].sha512, Some(vec![4u8; 64]));
}

#[test]
fn push_netfile_same_record_twice_is_noop() {
    let mut list: Vec<Source> = Vec::new();
    let mut a = plain_source("one", "https://x.org/f", Some(vec![2u8; 32]), None);
    a.sha512 = Some(vec![7u8; 64]);
    push_netfile_sources(&mut list, &a).unwrap();
    push_netfile_sources(&mut list, &a).unwrap();
    assert_eq!(list.len(), 1);
    assert_eq!(list[0].name, b"one".to_vec());
    assert_eq!(list[0].sha256, Some(vec![2u8; 32]));
    assert_eq!(list[0].sha512, Some(vec![7u8; 64]));
    assert_eq!(list[0].md5, None);
}

#[test]
fn push_netfile_conflict_is_error() {
    let mut list: Vec<Source> = Vec::new();
    let mut a = plain_source("one", "https://x.org/f", Some(vec![2u8; 32]), None);
    a.sha512 = Some(vec![5u8; 64]);
    push_netfile_sources(&mut list, &a).unwrap();
    let mut b = plain_source("two", "https://mirror.net/f", Some(vec![2u8; 32]), None);
    b.sha512 = Some(vec![6u8; 64]);
    assert!(push_netfile_sources(&mut list, &b).is_err());
    assert_eq!(list.len(), 1);
}

#[test]
fn push_git_dedups_by_url_hash() {
    let mut list: Vec<Source> = Vec::new();
    let mut g1 = plain_source("r", "https://git.host/r.git", None, None);
    g1.protocol = Protocol::Vcs { protocol: VcsProtocol::Git };
    g1.hash_url = 11;
    push_git_sources(&mut list, &g1);
    push_git_sources(&mut list, &g1);
    assert_eq!(list.len(), 1);
    let mut g2 = g1.dup();
    g2.hash_url = 12;
    push_git_sources(&mut list, &g2);
    assert_eq!(list.len(), 2);
}

#[test]
fn unique_sources_splits_and_skips_unsupported_vcs() {
    let n = plain_source("n", "https://x.org/f", Some(vec![2u8; 32]), None);
    let mut g = plain_source("g", "https://git.host/r.git", None, None);
    g.protocol = Protocol::Vcs { protocol: VcsProtocol::Git };
    let mut h = plain_source("h", "https://hg.host/r", None, None);
    h.protocol = Protocol::Vcs { protocol: VcsProtocol::Hg };
    let mut l = plain_source("l", "file:///tmp/f", None, None);
    l.protocol = Protocol::Local;
    let (net, git, local) = unique_sources(&vec![n, g, h, l]).unwrap();
    assert_eq!(net.len(), 1);
    assert_eq!(git.len(), 1);
    assert_eq!(local.len(), 1);
    assert_eq!(git[0].name, b"g".to_vec());
}
