//! Fetching netfile sources: the bounded retry schedule with its optional
//! proxy fallback, and the grouping of sources by the network domain that
//! bounds per-server concurrency.
use vstd::prelude::*;

use crate::checksum::{xxh3_64, xxh3_of};
use crate::source::{NetfileProtocol, Source, SourceV, opt_view, source_views};

verus! {

/// The host name of a URL string, as the `url` crate parses it; a function
/// of the URL alone. None where the URL does not parse or its host is no
/// domain name.
pub uninterp spec fn domain_of(url: Seq<u8>) -> Option<Seq<u8>>;

/// Relies on url::Url::parse and url::Url::domain: the host name of an
/// absolute URL, None for an unparsable URL or a non-domain host.
#[verifier::external_body]
pub fn url_domain(url: &Vec<u8>) -> (r: Option<Vec<u8>>)
    ensures
        opt_view(r) == domain_of(url@),
{
    match core::str::from_utf8(url.as_slice()) {
        Ok(s) => match url::Url::parse(s) {
            Ok(u) => u.domain().map(|d| d.as_bytes().to_vec()),
            Err(_) => None,
        },
        Err(_) => None,
    }
}

/// The 64-bit key a source is partitioned by: the hash of its URL's domain.
/// A URL without a domain is a configuration error.
pub fn source_domain_hash(source: &Source) -> (r: Result<u64, ()>)
    ensures
        r is Ok <==> domain_of(source@.url) is Some,
        r matches Ok(h) ==> Option::Some(h) == domain_hash_of(source@),
{
    match url_domain(&source.url) {
        Option::Some(d) => Ok(xxh3_64(&d)),
        Option::None => Err(()),
    }
}

/// The domain-hash key of a source, where its URL has a domain.
pub open spec fn domain_hash_of(s: SourceV) -> Option<u64> {
    match domain_of(s.url) {
        Option::Some(d) => Option::Some(xxh3_of(d)),
        Option::None => Option::None,
    }
}

/// Spec-level value of one domain group.
pub ghost struct DomainGroupV {
    pub domain: u64,
    pub sources: Seq<SourceV>,
}

/// The sources of one network domain, grouped under its hash key.
pub struct DomainGroup {
    pub domain: u64,
    pub sources: Vec<Source>,
}

impl View for DomainGroup {
    type V = DomainGroupV;

    open spec fn view(&self) -> DomainGroupV {
        DomainGroupV { domain: self.domain, sources: source_views(self.sources@) }
    }
}

/// The views of a sequence of groups.
pub open spec fn group_views(gs: Seq<DomainGroup>) -> Seq<DomainGroupV> {
    gs.map_values(|g: DomainGroup| g@)
}

/// Position `j` holds the first group keyed by `d`.
pub open spec fn is_first_group(gs: Seq<DomainGroupV>, d: u64, j: int) -> bool {
    &&& 0 <= j < gs.len()
    &&& gs[j].domain == d
    &&& forall|k: int| 0 <= k < j ==> (#[trigger] gs[k]).domain != d
}

/// At most one position is the first group of a key.
pub proof fn lemma_first_group_unique(gs: Seq<DomainGroupV>, d: u64, i: int, j: int)
    requires
        is_first_group(gs, d, i),
        is_first_group(gs, d, j),
    ensures
        i == j,
{
    if i < j {
        assert(gs[i].domain == d);
    } else if j < i {
        assert(gs[j].domain == d);
    }
}

/// What adding one source to the grouped list yields: appended to its
/// domain's group, or opening a new group at the end.
pub open spec fn group_push(gs: Seq<DomainGroupV>, d: u64, s: SourceV) -> Seq<DomainGroupV> {
    if exists|j: int| is_first_group(gs, d, j) {
        let j = choose|j: int| is_first_group(gs, d, j);
        gs.update(j, DomainGroupV { domain: d, sources: gs[j].sources.push(s) })
    } else {
        gs.push(DomainGroupV { domain: d, sources: seq![s] })
    }
}

/// What grouping a source list by domain yields, or the configuration error
/// when some URL has no domain.
pub open spec fn group_by_domain_spec(ss: Seq<SourceV>) -> Result<Seq<DomainGroupV>, ()>
    decreases ss.len(),
{
    if ss.len() == 0 {
        Ok(Seq::empty())
    } else {
        match group_by_domain_spec(ss.drop_last()) {
            Ok(gs) => match domain_hash_of(ss.last()) {
                Option::Some(d) => Ok(group_push(gs, d, ss.last())),
                Option::None => Err(()),
            },
            Err(e) => Err(e),
        }
    }
}

/// An erring prefix makes the whole grouping err.
pub proof fn lemma_group_err_extends(p: Seq<SourceV>, w: Seq<SourceV>)
    requires
        p.len() <= w.len(),
        w.subrange(0, p.len() as int) == p,
        group_by_domain_spec(p) is Err,
    ensures
        group_by_domain_spec(w) is Err,
    decreases w.len() - p.len(),
{
    if p.len() == w.len() {
        assert(w.subrange(0, p.len() as int) =~= w);
    } else {
        let q = w.subrange(0, p.len() as int + 1);
        assert(q.drop_last() =~= p);
        assert(w.subrange(0, q.len() as int) =~= q);
        lemma_group_err_extends(q, w);
    }
}

/// Groups sources by the hash of their URL's domain, keeping both group
/// order (first appearance) and source order within each group. A URL
/// without a domain is a configuration error.
pub fn map_sources_by_domain(sources: &Vec<Source>) -> (r: Result<Vec<DomainGroup>, ()>)
    ensures
        match r {
            Ok(gs) => group_by_domain_spec(source_views(sources@)) == Ok::<Seq<DomainGroupV>, ()>(
                group_views(gs@),
            ),
            Err(()) => group_by_domain_spec(source_views(sources@)) is Err,
        },
{
    let ghost all = source_views(sources@);
    let mut gs: Vec<DomainGroup> = Vec::new();
    let mut i: usize = 0;
    proof {
        assert(all.subrange(0, 0) =~= Seq::<SourceV>::empty());
        assert(group_views(gs@) =~= Seq::<DomainGroupV>::empty());
    }
    while i < sources.len()
        invariant
            i <= sources.len(),
            all == source_views(sources@),
            group_by_domain_spec(all.subrange(0, i as int)) == Ok::<Seq<DomainGroupV>, ()>(
                group_views(gs@),
            ),
        decreases sources.len() - i,
    {
        let ghost pre = all.subrange(0, i as int);
        let ghost post = all.subrange(0, i + 1 as int);
        proof {
            assert(post.drop_last() =~= pre);
            assert(post.last() == all[i as int]);
            assert(all[i as int] == sources@[i as int]@);
        }
        let source = &sources[i];
        let d = match source_domain_hash(source) {
            Ok(d) => d,
            Err(()) => {
                proof {
                    lemma_group_err_extends(post, all);
                }
                return Err(());
            },
        };
        let ghost gv = group_views(gs@);
        let ghost s = all[i as int];
        let mut j: usize = 0;
        let mut found = false;
        while j < gs.len() && !found
            invariant
                j <= gs.len(),
                gv == group_views(gs@),
                forall|k: int| 0 <= k < j ==> (#[trigger] gv[k]).domain != d,
                found ==> j < gs@.len() && gv[j as int].domain == d,
            decreases gs.len() - j + (if found {
                0int
            } else {
                1int
            }),
        {
            assert(gv[j as int] == gs@[j as int]@);
            if gs[j].domain == d {
                found = true;
            } else {
                j += 1;
            }
        }
        if found {
            proof {
                assert(is_first_group(gv, d, j as int));
                let j0 = choose|k: int| is_first_group(gv, d, k);
                lemma_first_group_unique(gv, d, j as int, j0);
            }
            let ghost olds = gv[j as int].sources;
            let mut g = gs.remove(j);
            g.sources.push(source.dup());
            proof {
                assert(source_views(g.sources@) =~= olds.push(s));
            }
            gs.insert(j, g);
            proof {
                assert(group_views(gs@) =~= group_push(gv, d, s));
            }
        } else {
            proof {
                if exists|k: int| is_first_group(gv, d, k) {
                    let k0 = choose|k: int| is_first_group(gv, d, k);
                    assert(gv[k0].domain != d);
                }
            }
            let mut sv: Vec<Source> = Vec::new();
            sv.push(source.dup());
            proof {
                assert(source_views(sv@) =~= seq![s]);
            }
            gs.push(DomainGroup { domain: d, sources: sv });
            proof {
                assert(group_views(gs@) =~= group_push(gv, d, s));
            }
        }
        i += 1;
    }
    proof {
        assert(all.subrange(0, sources@.len() as int) =~= all);
    }
    Ok(gs)
}

/// How one download attempt is made.
#[derive(Clone, Copy, PartialEq, Eq, Structural, Debug)]
pub enum FetchMethod {
    /// Fetch the URL directly.
    Direct,
    /// Fetch the URL through the configured proxy.
    Proxied,
}

/// Only plain HTTP(S) transfers can go through the proxy.
pub open spec fn proxyable(p: NetfileProtocol) -> bool {
    p == NetfileProtocol::Http || p == NetfileProtocol::Https
}

/// How many attempts a source is allowed: three direct, and two more through
/// the proxy where one is configured and the protocol supports it.
pub open spec fn allowed_attempts(p: NetfileProtocol, has_proxy: bool) -> int {
    if has_proxy && proxyable(p) {
        5
    } else {
        3
    }
}

/// The method of attempt number `done` (counting from zero), or None when
/// the attempts are exhausted and the source fails.
pub fn next_fetch_action(protocol: NetfileProtocol, has_proxy: bool, done: usize) -> (r: Option<
    FetchMethod,
>)
    ensures
        r == (if done < 3 {
            Option::Some(FetchMethod::Direct)
        } else if done < allowed_attempts(protocol, has_proxy) {
            Option::Some(FetchMethod::Proxied)
        } else {
            Option::<FetchMethod>::None
        }),
{
    if done < 3 {
        Option::Some(FetchMethod::Direct)
    } else if done < 5 && has_proxy && (matches!(protocol, NetfileProtocol::Http) || matches!(
        protocol,
        NetfileProtocol::Https,
    )) {
        Option::Some(FetchMethod::Proxied)
    } else {
        Option::None
    }
}

/// Drives the attempts for one netfile source. `verified` holds, per attempt
/// number, whether the entry checked out after that attempt; attempts stop
/// at the first success. Returns how many attempts were made, or the
/// per-source fatal error once every allowed attempt has failed.
pub fn download_netfile_source(
    protocol: NetfileProtocol,
    has_proxy: bool,
    verified: &Vec<bool>,
) -> (r: Result<usize, ()>)
    requires
        verified@.len() >= 5,
    ensures
        r matches Ok(n) ==> 1 <= n <= allowed_attempts(protocol, has_proxy) && verified@[n - 1]
            && forall|j: int| 0 <= j < n - 1 ==> !verified@[j],
        r is Err <==> forall|j: int|
            0 <= j < allowed_attempts(protocol, has_proxy) ==> !verified@[j],
{
    let mut done: usize = 0;
    loop
        invariant
            verified@.len() >= 5,
            0 <= done <= allowed_attempts(protocol, has_proxy),
            forall|j: int| 0 <= j < done ==> !verified@[j],
        decreases allowed_attempts(protocol, has_proxy) - done,
    {
        match next_fetch_action(protocol, has_proxy, done) {
            Option::Some(_method) => {
                if verified[done] {
                    return Ok(done + 1);
                }
                done += 1;
            },
            Option::None => {
                return Err(());
            },
        }
    }
}

} // verus!
