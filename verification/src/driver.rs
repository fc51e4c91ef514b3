//! The build driver's decision core: the bounded retry loop around
//! extraction and the build command, and the publication of finished
//! artifacts. The subprocesses run outside; every decision — when to
//! re-extract, when to retry, when to give up and what must be cleaned up —
//! is verified here, as is the rule that one package's final failure only
//! marks the aggregate result and never touches its siblings' artifacts.
use vstd::prelude::*;
use vstd::string::StringSliceAdditionalSpecFns;

use crate::bytes::{append_bytes, byte_views, bytes_eq_slice, str_bytes};
use crate::pkgbuild::Pkgbuild;
use crate::source::clone_bytes;

verus! {

/// What one build attempt's external steps reported: whether the source
/// extraction succeeded, and whether the build command exited zero.
#[derive(Clone, Copy, PartialEq, Eq, Structural, Debug)]
pub struct AttemptOutcome {
    pub extract_ok: bool,
    pub build_ok: bool,
}

/// How the retry loop ended.
#[derive(Clone, Copy, PartialEq, Eq, Structural, Debug)]
pub enum BuildTryResult {
    /// The build command exited zero on attempt `used` (counting from one).
    Succeeded { used: usize },
    /// Extraction failed on attempt `used` (counting from zero); fatal at
    /// once, no further attempt is made.
    ExtractFailed { used: usize },
    /// Every allowed attempt failed; the package is failed for good.
    FailedFinal,
}

/// The retry loop's outcome over the attempt reports, starting at attempt
/// `i` with the sources extracted or not: a missing extraction that fails
/// is fatal at once; a failing build consumes the attempt, invalidates the
/// extraction and retries; attempts are over at `max`.
pub open spec fn build_try_from(
    outcomes: Seq<AttemptOutcome>,
    extracted: bool,
    i: int,
    max: int,
) -> BuildTryResult
    decreases max - i,
{
    if i < 0 || i >= max {
        BuildTryResult::FailedFinal
    } else if !extracted && !outcomes[i].extract_ok {
        BuildTryResult::ExtractFailed { used: i as usize }
    } else if outcomes[i].build_ok {
        BuildTryResult::Succeeded { used: (i + 1) as usize }
    } else {
        build_try_from(outcomes, false, i + 1, max)
    }
}

/// Runs the bounded retry loop for one package. Each attempt extracts the
/// sources when they do not stand extracted, runs the build command, and
/// always removes the mutated build tree afterwards. The returned pair is
/// the loop's result and whether the temporary output directory is still
/// present: a success hands it to publication; exhausting every attempt
/// removes it.
pub fn build_try(pb: &mut Pkgbuild, outcomes: &Vec<AttemptOutcome>, max_tries: usize) -> (r: (
    BuildTryResult,
    bool,
))
    requires
        outcomes@.len() >= max_tries,
        max_tries >= 1,
    ensures
        r.0 == build_try_from(outcomes@, old(pb)@.extracted, 0, max_tries as int),
        !final(pb)@.extracted,
        r.0 is Succeeded ==> r.1,
        r.0 is FailedFinal ==> !r.1,
        final(pb)@ == (crate::pkgbuild::PkgbuildV { extracted: false, ..old(pb)@ }),
{
    let mut temp_present = true;
    let mut i: usize = 0;
    while i < max_tries
        invariant
            i <= max_tries,
            outcomes@.len() >= max_tries,
            temp_present,
            pb@ == (crate::pkgbuild::PkgbuildV {
                extracted: (i == 0 && old(pb)@.extracted),
                ..old(pb)@
            }),
            build_try_from(outcomes@, old(pb)@.extracted, 0, max_tries as int) == build_try_from(
                outcomes@,
                i == 0 && old(pb)@.extracted,
                i as int,
                max_tries as int,
            ),
        decreases max_tries - i,
    {
        if !pb.extracted {
            if !outcomes[i].extract_ok {
                return (BuildTryResult::ExtractFailed { used: i }, temp_present);
            }
            pb.extracted = true;
        }
        let attempt = outcomes[i];
        pb.extracted = false;
        if attempt.build_ok {
            return (BuildTryResult::Succeeded { used: i + 1 }, temp_present);
        }
        i += 1;
        if i >= max_tries {
            temp_present = false;
            return (BuildTryResult::FailedFinal, temp_present);
        }
    }
    (BuildTryResult::FailedFinal, false)
}

/// Law: a build that fails every attempt is attempted exactly the allowed
/// number of times — the loop ends in the final failure, never in success,
/// and never stops earlier.
pub proof fn lemma_retry_bound(outcomes: Seq<AttemptOutcome>, extracted: bool, i: int, max: int)
    requires
        forall|j: int| 0 <= j < max ==> (#[trigger] outcomes[j]).extract_ok && !outcomes[j].build_ok,
    ensures
        build_try_from(outcomes, extracted, i, max) is FailedFinal,
    decreases max - i,
{
    if 0 <= i < max {
        lemma_retry_bound(outcomes, false, i + 1, max);
    }
}

/// Law: the loop never uses more attempts than allowed, and a success names
/// the first attempt whose build command exited zero after starting cleanly.
pub proof fn lemma_retry_success_first(
    outcomes: Seq<AttemptOutcome>,
    extracted: bool,
    i: int,
    max: int,
    n: usize,
)
    requires
        0 <= i <= max,
        max <= outcomes.len(),
        max <= usize::MAX,
        build_try_from(outcomes, extracted, i, max) == (BuildTryResult::Succeeded { used: n }),
    ensures
        i < n <= max,
        outcomes[n - 1].build_ok,
        forall|j: int| i <= j < n - 1 ==> !(#[trigger] outcomes[j]).build_ok,
    decreases max - i,
{
    if i < max {
        if !(!extracted && !outcomes[i].extract_ok) && !outcomes[i].build_ok {
            lemma_retry_success_first(outcomes, false, i + 1, max, n);
        }
    }
}

/// The persistent artifact store: the identities whose directories stand
/// under the package tree, and the identities linked under the `updated`
/// and `latest` convenience trees.
pub struct PkgStore {
    pub published: Vec<Vec<u8>>,
    pub updated: Vec<Vec<u8>>,
    pub latest: Vec<Vec<u8>>,
}

/// Whether a list of identities holds one.
pub fn contains_id(list: &Vec<Vec<u8>>, id: &Vec<u8>) -> (r: bool)
    ensures
        r == byte_views(list@).contains(id@),
{
    let mut i: usize = 0;
    while i < list.len()
        invariant
            i <= list.len(),
            forall|j: int| 0 <= j < i ==> byte_views(list@)[j] != id@,
        decreases list.len() - i,
    {
        assert(byte_views(list@)[i as int] == list@[i as int]@);
        if bytes_eq_slice(&list[i], id.as_slice()) {
            assert(byte_views(list@).contains(id@));
            return true;
        }
        i += 1;
    }
    proof {
        if byte_views(list@).contains(id@) {
            let j = choose|j: int| 0 <= j < byte_views(list@).len() && byte_views(list@)[j] == id@;
            assert(byte_views(list@)[j] != id@);
        }
    }
    false
}

impl PkgStore {
    /// Publishes one finished build: any artifact directory a previous run
    /// left for this identity is replaced by the temporary output, and the
    /// identity is linked under `updated`. Nothing else is touched.
    pub fn build_finish(&mut self, pkgid: &Vec<u8>)
        ensures
            byte_views(final(self).published@).contains(pkgid@),
            byte_views(final(self).updated@).contains(pkgid@),
            forall|x: Seq<u8>|
                byte_views(final(self).published@).contains(x) <==> (byte_views(
                    old(self).published@,
                ).contains(x) || x == pkgid@),
            forall|x: Seq<u8>|
                byte_views(final(self).updated@).contains(x) <==> (byte_views(
                    old(self).updated@,
                ).contains(x) || x == pkgid@),
            final(self).latest@ == old(self).latest@,
    {
        let ghost pv = byte_views(self.published@);
        let ghost uv = byte_views(self.updated@);
        if !contains_id(&self.published, pkgid) {
            self.published.push(clone_bytes(pkgid));
            proof {
                assert(byte_views(self.published@) =~= pv.push(pkgid@));
                lemma_contains_push(pv, pkgid@);
            }
        }
        if !contains_id(&self.updated, pkgid) {
            self.updated.push(clone_bytes(pkgid));
            proof {
                assert(byte_views(self.updated@) =~= uv.push(pkgid@));
                lemma_contains_push(uv, pkgid@);
            }
        }
    }

    /// Links every published identity of this run under `latest`.
    pub fn link_latest(&mut self, ids: &Vec<Vec<u8>>)
        ensures
            final(self).published@ == old(self).published@,
            final(self).updated@ == old(self).updated@,
            forall|i: int|
                0 <= i < ids@.len() && byte_views(final(self).published@).contains(
                    byte_views(ids@)[i],
                ) ==> byte_views(final(self).latest@).contains(#[trigger] byte_views(ids@)[i]),
            forall|x: Seq<u8>|
                byte_views(final(self).latest@).contains(x) ==> (byte_views(
                    old(self).latest@,
                ).contains(x) || byte_views(ids@).contains(x)),
    {
        let mut i: usize = 0;
        while i < ids.len()
            invariant
                i <= ids@.len(),
                self.published@ == old(self).published@,
                self.updated@ == old(self).updated@,
                forall|j: int|
                    0 <= j < i && byte_views(self.published@).contains(byte_views(ids@)[j])
                        ==> byte_views(self.latest@).contains(#[trigger] byte_views(ids@)[j]),
                forall|x: Seq<u8>|
                    byte_views(self.latest@).contains(x) ==> (byte_views(
                        old(self).latest@,
                    ).contains(x) || byte_views(ids@).contains(x)),
            decreases ids.len() - i,
        {
            assert(byte_views(ids@)[i as int] == ids@[i as int]@);
            let ghost lv = byte_views(self.latest@);
            if contains_id(&self.published, &ids[i]) {
                if !contains_id(&self.latest, &ids[i]) {
                    self.latest.push(clone_bytes(&ids[i]));
                    proof {
                        assert(byte_views(self.latest@) =~= lv.push(ids@[i as int]@));
                        lemma_contains_push(lv, ids@[i as int]@);
                        assert forall|x: Seq<u8>| byte_views(self.latest@).contains(x) implies (
                        byte_views(old(self).latest@).contains(x) || byte_views(ids@).contains(
                            x,
                        )) by {
                            if x != ids@[i as int]@ {
                                assert(lv.contains(x));
                            } else {
                                assert(byte_views(ids@)[i as int] == x);
                            }
                        }
                    }
                }
                proof {
                    assert forall|j: int|
                        0 <= j < i + 1 && byte_views(self.published@).contains(
                            byte_views(ids@)[j],
                        ) implies byte_views(self.latest@).contains(
                        #[trigger] byte_views(ids@)[j],
                    ) by {
                        if j < i {
                            if lv.contains(byte_views(ids@)[j]) {
                                lemma_contains_stays(lv, byte_views(self.latest@), byte_views(ids@)[j]);
                            }
                        }
                    }
                }
            }
            i += 1;
        }
    }
}

/// After a push, an element is contained exactly when it was or is the one
/// pushed.
proof fn lemma_contains_push(s: Seq<Seq<u8>>, x: Seq<u8>)
    ensures
        forall|y: Seq<u8>| s.push(x).contains(y) <==> (s.contains(y) || y == x),
{
    assert forall|y: Seq<u8>| s.push(x).contains(y) implies (s.contains(y) || y == x) by {
        let j = choose|j: int| 0 <= j < s.push(x).len() && s.push(x)[j] == y;
        if j < s.len() {
            assert(s[j] == y);
        }
    }
    assert forall|y: Seq<u8>| s.contains(y) || y == x implies s.push(x).contains(y) by {
        if y == x {
            assert(s.push(x)[s.len() as int] == y);
        } else {
            let j = choose|j: int| 0 <= j < s.len() && s[j] == y;
            assert(s.push(x)[j] == y);
        }
    }
}

/// Containment survives growing a list by pushes.
proof fn lemma_contains_stays(pre: Seq<Seq<u8>>, post: Seq<Seq<u8>>, x: Seq<u8>)
    requires
        pre.contains(x),
        post == pre || post == pre.push(post.last()),
    ensures
        post.contains(x),
{
    if post != pre {
        let j = choose|j: int| 0 <= j < pre.len() && pre[j] == x;
        assert(post[j] == x);
    }
}

/// Publishes every finished build of the run and reports the aggregate
/// result: the run fails exactly when some package failed, but every
/// success is published and linked under `updated` regardless — a failure
/// never subtracts a sibling's artifacts.
pub fn build_any_needed(ids: &Vec<Vec<u8>>, results: &Vec<bool>, store: &mut PkgStore) -> (r:
    Result<(), ()>)
    requires
        ids@.len() == results@.len(),
    ensures
        r is Ok <==> forall|i: int| 0 <= i < results@.len() ==> results@[i],
        forall|i: int|
            0 <= i < ids@.len() && results@[i] ==> byte_views(final(store).published@).contains(
                #[trigger] byte_views(ids@)[i],
            ) && byte_views(final(store).updated@).contains(byte_views(ids@)[i]),
        forall|x: Seq<u8>|
            byte_views(final(store).published@).contains(x) ==> (byte_views(
                old(store).published@,
            ).contains(x) || exists|i: int|
                0 <= i < ids@.len() && results@[i] && #[trigger] byte_views(ids@)[i] == x),
{
    let mut bad = false;
    let mut i: usize = 0;
    while i < ids.len()
        invariant
            i <= ids@.len(),
            ids@.len() == results@.len(),
            bad <==> exists|j: int| 0 <= j < i && !(#[trigger] results@[j]),
            forall|j: int|
                0 <= j < i && results@[j] ==> byte_views(store.published@).contains(
                    #[trigger] byte_views(ids@)[j],
                ) && byte_views(store.updated@).contains(byte_views(ids@)[j]),
            forall|x: Seq<u8>|
                byte_views(store.published@).contains(x) ==> (byte_views(
                    old(store).published@,
                ).contains(x) || exists|j: int|
                    0 <= j < i && results@[j] && #[trigger] byte_views(ids@)[j] == x),
        decreases ids.len() - i,
    {
        assert(byte_views(ids@)[i as int] == ids@[i as int]@);
        if results[i] {
            store.build_finish(&ids[i]);
        } else {
            bad = true;
            assert(!results@[i as int]);
        }
        i += 1;
    }
    if bad {
        Err(())
    } else {
        Ok(())
    }
}

/// The artifact directory names one run keeps: every package identity of
/// the run plus the two convenience trees, sorted for the sweep that
/// removes everything else.
pub fn clean_pkgdir(ids: &Vec<Vec<u8>>) -> (r: Vec<Vec<u8>>)
    ensures
        crate::depends::sorted_strict(byte_views(r@)),
        forall|x: Seq<u8>|
            byte_views(r@).contains(x) <==> (byte_views(ids@).contains(x) || x
                == "updated".spec_bytes() || x == "latest".spec_bytes()),
{
    let mut r: Vec<Vec<u8>> = Vec::new();
    let mut i: usize = 0;
    proof {
        assert(byte_views(r@) =~= Seq::<Seq<u8>>::empty());
    }
    while i < ids.len()
        invariant
            i <= ids@.len(),
            crate::depends::sorted_strict(byte_views(r@)),
            forall|x: Seq<u8>|
                byte_views(r@).contains(x) <==> byte_views(ids@).subrange(0, i as int).contains(
                    x,
                ),
        decreases ids.len() - i,
    {
        assert(byte_views(ids@)[i as int] == ids@[i as int]@);
        crate::depends::insert_sorted_unique(&mut r, &ids[i]);
        proof {
            let prev = byte_views(ids@).subrange(0, i as int);
            let now = byte_views(ids@).subrange(0, i + 1 as int);
            assert(now =~= prev.push(byte_views(ids@)[i as int]));
            assert forall|x: Seq<u8>| now.contains(x) implies (prev.contains(x) || x == byte_views(
                ids@,
            )[i as int]) by {
                let k = choose|k: int| 0 <= k < now.len() && now[k] == x;
                if k < prev.len() {
                    assert(prev[k] == x);
                }
            }
            assert forall|x: Seq<u8>|
                prev.contains(x) || x == byte_views(ids@)[i as int] implies now.contains(x) by {
                if x == byte_views(ids@)[i as int] {
                    assert(now[now.len() - 1] == x);
                } else {
                    let k = choose|k: int| 0 <= k < prev.len() && prev[k] == x;
                    assert(now[k] == x);
                }
            }
        }
        i += 1;
    }
    proof {
        assert(byte_views(ids@).subrange(0, ids@.len() as int) =~= byte_views(ids@));
    }
    let upd = str_bytes("updated");
    crate::depends::insert_sorted_unique(&mut r, &upd);
    let lat = str_bytes("latest");
    crate::depends::insert_sorted_unique(&mut r, &lat);
    r
}

/// Law: when exactly one of the packages fails, the run's aggregate result
/// is the failure, yet every other package's artifacts are published and
/// linked under `updated`.
pub proof fn lemma_aggregate_failure_semantics(
    ids: Seq<Seq<u8>>,
    results: Seq<bool>,
    published: Seq<Seq<u8>>,
    updated: Seq<Seq<u8>>,
    r: Result<(), ()>,
    f: int,
)
    requires
        ids.len() == results.len(),
        0 <= f < results.len(),
        !results[f],
        forall|i: int| 0 <= i < results.len() && i != f ==> results[i],
        r is Ok <==> forall|i: int| 0 <= i < results.len() ==> results[i],
        forall|i: int|
            0 <= i < ids.len() && results[i] ==> published.contains(#[trigger] ids[i])
                && updated.contains(ids[i]),
    ensures
        r is Err,
        forall|i: int|
            0 <= i < ids.len() && i != f ==> published.contains(#[trigger] ids[i])
                && updated.contains(ids[i]),
{
    assert(!(forall|i: int| 0 <= i < results.len() ==> results[i])) by {
        assert(!results[f]);
    }
}

} // verus!
