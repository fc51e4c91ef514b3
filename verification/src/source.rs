//! Source records: one fetchable dependency of a recipe, carrying a protocol,
//! a URL and up to eight integrity digests. Records naming the same artifact
//! are merged by digest union; a digest disagreement is a data error.
use vstd::prelude::*;
use vstd::pervasive::VecAdditionalExecFns;
use vstd::string::StringSliceAdditionalSpecFns;

use crate::bytes::bytes_eq_slice;

verus! {

/// Protocols fetched as plain files.
#[derive(Clone, Copy, PartialEq, Eq, Structural, Debug)]
pub enum NetfileProtocol {
    File,
    Ftp,
    Http,
    Https,
    Rsync,
    Scp,
}

/// Version-control protocols.
#[derive(Clone, Copy, PartialEq, Eq, Structural, Debug)]
pub enum VcsProtocol {
    Bzr,
    Fossil,
    Git,
    Hg,
    Svn,
}

/// How one source is obtained.
#[derive(Clone, Copy, PartialEq, Eq, Structural, Debug)]
#[allow(inconsistent_fields)]
pub enum Protocol {
    Netfile { protocol: NetfileProtocol },
    Vcs { protocol: VcsProtocol },
    Local,
}

/// The protocol each recognised keyword denotes; an unknown keyword is a
/// configuration error.
pub open spec fn protocol_of_keyword(s: Seq<u8>) -> Result<Protocol, ()> {
    if s == "file".spec_bytes() {
        Ok(Protocol::Netfile { protocol: NetfileProtocol::File })
    } else if s == "ftp".spec_bytes() {
        Ok(Protocol::Netfile { protocol: NetfileProtocol::Ftp })
    } else if s == "http".spec_bytes() {
        Ok(Protocol::Netfile { protocol: NetfileProtocol::Http })
    } else if s == "https".spec_bytes() {
        Ok(Protocol::Netfile { protocol: NetfileProtocol::Https })
    } else if s == "rsync".spec_bytes() {
        Ok(Protocol::Netfile { protocol: NetfileProtocol::Rsync })
    } else if s == "scp".spec_bytes() {
        Ok(Protocol::Netfile { protocol: NetfileProtocol::Scp })
    } else if s == "bzr".spec_bytes() {
        Ok(Protocol::Vcs { protocol: VcsProtocol::Bzr })
    } else if s == "fossil".spec_bytes() {
        Ok(Protocol::Vcs { protocol: VcsProtocol::Fossil })
    } else if s == "git".spec_bytes() {
        Ok(Protocol::Vcs { protocol: VcsProtocol::Git })
    } else if s == "hg".spec_bytes() {
        Ok(Protocol::Vcs { protocol: VcsProtocol::Hg })
    } else if s == "svn".spec_bytes() {
        Ok(Protocol::Vcs { protocol: VcsProtocol::Svn })
    } else if s == "local".spec_bytes() {
        Ok(Protocol::Local)
    } else {
        Err(())
    }
}

/// Reads a protocol keyword as a recipe declares it.
pub fn protocol_from_string(value: &Vec<u8>) -> (r: Result<Protocol, ()>)
    ensures
        r == protocol_of_keyword(value@),
{
    if bytes_eq_slice(value, "file".as_bytes()) {
        Ok(Protocol::Netfile { protocol: NetfileProtocol::File })
    } else if bytes_eq_slice(value, "ftp".as_bytes()) {
        Ok(Protocol::Netfile { protocol: NetfileProtocol::Ftp })
    } else if bytes_eq_slice(value, "http".as_bytes()) {
        Ok(Protocol::Netfile { protocol: NetfileProtocol::Http })
    } else if bytes_eq_slice(value, "https".as_bytes()) {
        Ok(Protocol::Netfile { protocol: NetfileProtocol::Https })
    } else if bytes_eq_slice(value, "rsync".as_bytes()) {
        Ok(Protocol::Netfile { protocol: NetfileProtocol::Rsync })
    } else if bytes_eq_slice(value, "scp".as_bytes()) {
        Ok(Protocol::Netfile { protocol: NetfileProtocol::Scp })
    } else if bytes_eq_slice(value, "bzr".as_bytes()) {
        Ok(Protocol::Vcs { protocol: VcsProtocol::Bzr })
    } else if bytes_eq_slice(value, "fossil".as_bytes()) {
        Ok(Protocol::Vcs { protocol: VcsProtocol::Fossil })
    } else if bytes_eq_slice(value, "git".as_bytes()) {
        Ok(Protocol::Vcs { protocol: VcsProtocol::Git })
    } else if bytes_eq_slice(value, "hg".as_bytes()) {
        Ok(Protocol::Vcs { protocol: VcsProtocol::Hg })
    } else if bytes_eq_slice(value, "svn".as_bytes()) {
        Ok(Protocol::Vcs { protocol: VcsProtocol::Svn })
    } else if bytes_eq_slice(value, "local".as_bytes()) {
        Ok(Protocol::Local)
    } else {
        Err(())
    }
}

/// Spec-level value of a source record.
pub ghost struct SourceV {
    pub name: Seq<u8>,
    pub protocol: Protocol,
    pub url: Seq<u8>,
    pub hash_url: u64,
    pub ck: Option<u32>,
    pub md5: Option<Seq<u8>>,
    pub sha1: Option<Seq<u8>>,
    pub sha224: Option<Seq<u8>>,
    pub sha256: Option<Seq<u8>>,
    pub sha384: Option<Seq<u8>>,
    pub sha512: Option<Seq<u8>>,
    pub b2: Option<Seq<u8>>,
}

/// One declared source: name, protocol, URL with its 64-bit hash, and the
/// digests the recipe states for it. A source with no digest at all has no
/// cache key and is rejected at ingestion.
pub struct Source {
    pub name: Vec<u8>,
    pub protocol: Protocol,
    pub url: Vec<u8>,
    pub hash_url: u64,
    pub ck: Option<u32>,
    pub md5: Option<Vec<u8>>,
    pub sha1: Option<Vec<u8>>,
    pub sha224: Option<Vec<u8>>,
    pub sha256: Option<Vec<u8>>,
    pub sha384: Option<Vec<u8>>,
    pub sha512: Option<Vec<u8>>,
    pub b2: Option<Vec<u8>>,
}

/// The value of an optional digest.
pub open spec fn opt_view(o: Option<Vec<u8>>) -> Option<Seq<u8>> {
    match o {
        Option::Some(v) => Option::Some(v@),
        Option::None => Option::None,
    }
}

impl View for Source {
    type V = SourceV;

    open spec fn view(&self) -> SourceV {
        SourceV {
            name: self.name@,
            protocol: self.protocol,
            url: self.url@,
            hash_url: self.hash_url,
            ck: self.ck,
            md5: opt_view(self.md5),
            sha1: opt_view(self.sha1),
            sha224: opt_view(self.sha224),
            sha256: opt_view(self.sha256),
            sha384: opt_view(self.sha384),
            sha512: opt_view(self.sha512),
            b2: opt_view(self.b2),
        }
    }
}

/// The views of a sequence of sources.
pub open spec fn source_views(ss: Seq<Source>) -> Seq<SourceV> {
    ss.map_values(|x: Source| x@)
}

/// Both records state this digest, with the same value.
pub open spec fn same_digest<T>(a: Option<T>, b: Option<T>) -> bool {
    a is Some && b is Some && a == b
}

/// Both records state this digest, with different values.
pub open spec fn clashing_digest<T>(a: Option<T>, b: Option<T>) -> bool {
    a is Some && b is Some && a != b
}

/// The digest the merged record keeps: the existing one where present.
pub open spec fn merged_digest<T>(a: Option<T>, b: Option<T>) -> Option<T> {
    if a is Some {
        a
    } else {
        b
    }
}

/// Some digest value is shared: the two records describe the same artifact.
pub open spec fn digests_overlap(a: SourceV, b: SourceV) -> bool {
    ||| same_digest(a.ck, b.ck)
    ||| same_digest(a.md5, b.md5)
    ||| same_digest(a.sha1, b.sha1)
    ||| same_digest(a.sha224, b.sha224)
    ||| same_digest(a.sha256, b.sha256)
    ||| same_digest(a.sha384, b.sha384)
    ||| same_digest(a.sha512, b.sha512)
    ||| same_digest(a.b2, b.b2)
}

/// Some digest kind is stated by both records with different values.
pub open spec fn digests_clash(a: SourceV, b: SourceV) -> bool {
    ||| clashing_digest(a.ck, b.ck)
    ||| clashing_digest(a.md5, b.md5)
    ||| clashing_digest(a.sha1, b.sha1)
    ||| clashing_digest(a.sha224, b.sha224)
    ||| clashing_digest(a.sha256, b.sha256)
    ||| clashing_digest(a.sha384, b.sha384)
    ||| clashing_digest(a.sha512, b.sha512)
    ||| clashing_digest(a.b2, b.b2)
}

/// No digest kind is stated by both records.
pub open spec fn digests_disjoint(a: SourceV, b: SourceV) -> bool {
    &&& !(a.ck is Some && b.ck is Some)
    &&& !(a.md5 is Some && b.md5 is Some)
    &&& !(a.sha1 is Some && b.sha1 is Some)
    &&& !(a.sha224 is Some && b.sha224 is Some)
    &&& !(a.sha256 is Some && b.sha256 is Some)
    &&& !(a.sha384 is Some && b.sha384 is Some)
    &&& !(a.sha512 is Some && b.sha512 is Some)
    &&& !(a.b2 is Some && b.b2 is Some)
}

/// The record has at least one digest, and with it a cache key.
pub open spec fn has_digest(s: SourceV) -> bool {
    ||| s.ck is Some
    ||| s.md5 is Some
    ||| s.sha1 is Some
    ||| s.sha224 is Some
    ||| s.sha256 is Some
    ||| s.sha384 is Some
    ||| s.sha512 is Some
    ||| s.b2 is Some
}

/// The merge of two records for the same artifact: identity fields of the
/// first, digests the union of the two.
pub open spec fn merged_source(a: SourceV, b: SourceV) -> SourceV {
    SourceV {
        name: a.name,
        protocol: a.protocol,
        url: a.url,
        hash_url: a.hash_url,
        ck: merged_digest(a.ck, b.ck),
        md5: merged_digest(a.md5, b.md5),
        sha1: merged_digest(a.sha1, b.sha1),
        sha224: merged_digest(a.sha224, b.sha224),
        sha256: merged_digest(a.sha256, b.sha256),
        sha384: merged_digest(a.sha384, b.sha384),
        sha512: merged_digest(a.sha512, b.sha512),
        b2: merged_digest(a.b2, b.b2),
    }
}

/// Law: merging records with disjoint digest sets keeps every digest either
/// record had (the union); such a merge never clashes; and merging a record
/// with itself changes nothing.
pub proof fn lemma_merge_digest_union(a: SourceV, b: SourceV)
    ensures
        digests_disjoint(a, b) ==> !digests_clash(a, b),
        digests_disjoint(a, b) ==> {
            let m = merged_source(a, b);
            &&& (m.ck is Some <==> a.ck is Some || b.ck is Some)
            &&& (m.md5 is Some <==> a.md5 is Some || b.md5 is Some)
            &&& (m.sha1 is Some <==> a.sha1 is Some || b.sha1 is Some)
            &&& (m.sha224 is Some <==> a.sha224 is Some || b.sha224 is Some)
            &&& (m.sha256 is Some <==> a.sha256 is Some || b.sha256 is Some)
            &&& (m.sha384 is Some <==> a.sha384 is Some || b.sha384 is Some)
            &&& (m.sha512 is Some <==> a.sha512 is Some || b.sha512 is Some)
            &&& (m.b2 is Some <==> a.b2 is Some || b.b2 is Some)
            &&& (a.ck is Some ==> m.ck == a.ck) && (b.ck is Some ==> m.ck == b.ck)
            &&& (a.md5 is Some ==> m.md5 == a.md5) && (b.md5 is Some ==> m.md5 == b.md5)
            &&& (a.sha1 is Some ==> m.sha1 == a.sha1) && (b.sha1 is Some ==> m.sha1 == b.sha1)
            &&& (a.sha224 is Some ==> m.sha224 == a.sha224) && (b.sha224 is Some ==> m.sha224
                == b.sha224)
            &&& (a.sha256 is Some ==> m.sha256 == a.sha256) && (b.sha256 is Some ==> m.sha256
                == b.sha256)
            &&& (a.sha384 is Some ==> m.sha384 == a.sha384) && (b.sha384 is Some ==> m.sha384
                == b.sha384)
            &&& (a.sha512 is Some ==> m.sha512 == a.sha512) && (b.sha512 is Some ==> m.sha512
                == b.sha512)
            &&& (a.b2 is Some ==> m.b2 == a.b2) && (b.b2 is Some ==> m.b2 == b.b2)
        },
        !digests_clash(a, a),
        merged_source(a, a) == a,
{
}

/// Copies a byte vector.
pub fn clone_bytes(v: &Vec<u8>) -> (r: Vec<u8>)
    ensures
        r@ == v@,
{
    let r = v.clone();
    assert(r@ =~= v@) by {
        assert(forall|i: int| 0 <= i < v@.len() ==> cloned::<u8>(v@[i], #[trigger] r@[i]));
    }
    r
}

/// Copies an optional digest value.
pub fn clone_opt_bytes(o: &Option<Vec<u8>>) -> (r: Option<Vec<u8>>)
    ensures
        opt_view(r) == opt_view(*o),
{
    match o {
        Option::Some(v) => Option::Some(clone_bytes(v)),
        Option::None => Option::None,
    }
}

/// Whether two optional word digests are both present and equal.
pub fn same_digest_u32(a: &Option<u32>, b: &Option<u32>) -> (r: bool)
    ensures
        r == same_digest(*a, *b),
{
    match (a, b) {
        (Option::Some(x), Option::Some(y)) => *x == *y,
        _ => false,
    }
}

/// Whether two optional byte digests are both present and equal.
pub fn same_digest_bytes(a: &Option<Vec<u8>>, b: &Option<Vec<u8>>) -> (r: bool)
    ensures
        r == same_digest(opt_view(*a), opt_view(*b)),
{
    match (a, b) {
        (Option::Some(x), Option::Some(y)) => {
            let e = x == y;
            proof {
                if e {
                    assert(x@ =~= y@);
                }
            }
            e
        },
        _ => false,
    }
}

/// Whether two optional word digests are both present and different.
pub fn clashing_digest_u32(a: &Option<u32>, b: &Option<u32>) -> (r: bool)
    ensures
        r == clashing_digest(*a, *b),
{
    match (a, b) {
        (Option::Some(x), Option::Some(y)) => *x != *y,
        _ => false,
    }
}

/// Whether two optional byte digests are both present and different.
pub fn clashing_digest_bytes(a: &Option<Vec<u8>>, b: &Option<Vec<u8>>) -> (r: bool)
    ensures
        r == clashing_digest(opt_view(*a), opt_view(*b)),
{
    match (a, b) {
        (Option::Some(x), Option::Some(y)) => {
            let e = x == y;
            proof {
                if e {
                    assert(x@ =~= y@);
                }
            }
            !e
        },
        _ => false,
    }
}

/// The union of one optional word digest.
fn merged_u32(a: &Option<u32>, b: &Option<u32>) -> (r: Option<u32>)
    ensures
        r == merged_digest(*a, *b),
{
    match a {
        Option::Some(x) => Option::Some(*x),
        Option::None => match b {
            Option::Some(y) => Option::Some(*y),
            Option::None => Option::None,
        },
    }
}

/// The union of one optional byte digest.
fn merged_bytes(a: &Option<Vec<u8>>, b: &Option<Vec<u8>>) -> (r: Option<Vec<u8>>)
    ensures
        opt_view(r) == merged_digest(opt_view(*a), opt_view(*b)),
{
    match a {
        Option::Some(x) => Option::Some(clone_bytes(x)),
        Option::None => clone_opt_bytes(b),
    }
}

impl Source {
    /// Copies a source record.
    pub fn dup(&self) -> (r: Source)
        ensures
            r@ == self@,
    {
        Source {
            name: clone_bytes(&self.name),
            protocol: self.protocol,
            url: clone_bytes(&self.url),
            hash_url: self.hash_url,
            ck: self.ck,
            md5: clone_opt_bytes(&self.md5),
            sha1: clone_opt_bytes(&self.sha1),
            sha224: clone_opt_bytes(&self.sha224),
            sha256: clone_opt_bytes(&self.sha256),
            sha384: clone_opt_bytes(&self.sha384),
            sha512: clone_opt_bytes(&self.sha512),
            b2: clone_opt_bytes(&self.b2),
        }
    }

    /// Whether this record and another share some digest value.
    pub fn overlaps(&self, other: &Source) -> (r: bool)
        ensures
            r == digests_overlap(self@, other@),
    {
        same_digest_u32(&self.ck, &other.ck) || same_digest_bytes(&self.md5, &other.md5)
            || same_digest_bytes(&self.sha1, &other.sha1) || same_digest_bytes(
            &self.sha224,
            &other.sha224,
        ) || same_digest_bytes(&self.sha256, &other.sha256) || same_digest_bytes(
            &self.sha384,
            &other.sha384,
        ) || same_digest_bytes(&self.sha512, &other.sha512) || same_digest_bytes(
            &self.b2,
            &other.b2,
        )
    }

    /// Whether this record and another state some digest kind differently.
    pub fn clashes(&self, other: &Source) -> (r: bool)
        ensures
            r == digests_clash(self@, other@),
    {
        clashing_digest_u32(&self.ck, &other.ck) || clashing_digest_bytes(&self.md5, &other.md5)
            || clashing_digest_bytes(&self.sha1, &other.sha1) || clashing_digest_bytes(
            &self.sha224,
            &other.sha224,
        ) || clashing_digest_bytes(&self.sha256, &other.sha256) || clashing_digest_bytes(
            &self.sha384,
            &other.sha384,
        ) || clashing_digest_bytes(&self.sha512, &other.sha512) || clashing_digest_bytes(
            &self.b2,
            &other.b2,
        )
    }
}

/// Merges two records describing the same artifact: the digests become the
/// union of the two sets; a digest kind both state differently is a data
/// error and nothing is merged.
pub fn merge_sources(a: &Source, b: &Source) -> (r: Result<Source, ()>)
    ensures
        r is Ok <==> !digests_clash(a@, b@),
        r matches Ok(m) ==> m@ == merged_source(a@, b@),
{
    if a.clashes(b) {
        return Err(());
    }
    Ok(
        Source {
            name: clone_bytes(&a.name),
            protocol: a.protocol,
            url: clone_bytes(&a.url),
            hash_url: a.hash_url,
            ck: merged_u32(&a.ck, &b.ck),
            md5: merged_bytes(&a.md5, &b.md5),
            sha1: merged_bytes(&a.sha1, &b.sha1),
            sha224: merged_bytes(&a.sha224, &b.sha224),
            sha256: merged_bytes(&a.sha256, &b.sha256),
            sha384: merged_bytes(&a.sha384, &b.sha384),
            sha512: merged_bytes(&a.sha512, &b.sha512),
            b2: merged_bytes(&a.b2, &b.b2),
        },
    )
}

/// Position `i` holds the first record sharing a digest with `s`.
pub open spec fn is_first_overlap(vs: Seq<SourceV>, s: SourceV, i: int) -> bool {
    &&& 0 <= i < vs.len()
    &&& digests_overlap(vs[i], s)
    &&& forall|j: int| 0 <= j < i ==> !digests_overlap(#[trigger] vs[j], s)
}

/// At most one position is the first overlap.
pub proof fn lemma_first_overlap_unique(vs: Seq<SourceV>, s: SourceV, i: int, j: int)
    requires
        is_first_overlap(vs, s, i),
        is_first_overlap(vs, s, j),
    ensures
        i == j,
{
    if i < j {
        assert(!digests_overlap(vs[i], s));
    } else if j < i {
        assert(!digests_overlap(vs[j], s));
    }
}

/// What adding one netfile source to the deduplicated list yields: merged
/// into the first record sharing a digest, appended when none does, an error
/// when the sharing record also clashes.
pub open spec fn push_netfile_spec(vs: Seq<SourceV>, s: SourceV) -> Result<Seq<SourceV>, ()> {
    if exists|i: int| is_first_overlap(vs, s, i) {
        let i = choose|i: int| is_first_overlap(vs, s, i);
        if digests_clash(vs[i], s) {
            Err(())
        } else {
            Ok(vs.update(i, merged_source(vs[i], s)))
        }
    } else {
        Ok(vs.push(s))
    }
}

/// Law: pushing a record the list already holds is a no-op — the record it
/// equals absorbs it, and merging a record with itself changes nothing.
/// Stated at the position of the list's first digest overlap with the
/// record: were a different overlapping record standing earlier, the push
/// would merge there instead, but such lists do not arise from this crate's
/// own ingestion.
pub proof fn lemma_push_same_record_noop(vs: Seq<SourceV>, s: SourceV, i: int)
    requires
        is_first_overlap(vs, s, i),
        vs[i] == s,
    ensures
        push_netfile_spec(vs, s) == Ok::<Seq<SourceV>, ()>(vs),
{
    let i0 = choose|k: int| is_first_overlap(vs, s, k);
    lemma_first_overlap_unique(vs, s, i, i0);
    lemma_merge_digest_union(s, s);
    assert(vs.update(i, merged_source(vs[i], s)) =~= vs);
}

/// What adding one git source yields: dropped when its URL hash is already
/// present, appended otherwise.
pub open spec fn push_git_spec(vs: Seq<SourceV>, s: SourceV) -> Seq<SourceV> {
    if exists|j: int| 0 <= j < vs.len() && (#[trigger] vs[j]).hash_url == s.hash_url {
        vs
    } else {
        vs.push(s)
    }
}

/// Adds one netfile source to the deduplicated list: merged into the first
/// record sharing a digest value, appended when none does. A record that
/// shares one digest but disagrees on another is a data error; the list is
/// then unchanged.
pub fn push_netfile_sources(netfile_sources: &mut Vec<Source>, source: &Source) -> (r: Result<
    (),
    (),
>)
    ensures
        r is Ok <==> push_netfile_spec(source_views(old(netfile_sources)@), source@) is Ok,
        r is Ok ==> Ok::<Seq<SourceV>, ()>(source_views(final(netfile_sources)@))
            == push_netfile_spec(
            source_views(old(netfile_sources)@),
            source@,
        ),
        r is Err ==> final(netfile_sources)@ == old(netfile_sources)@,
{
    let ghost vs = source_views(old(netfile_sources)@);
    let ghost s = source@;
    let mut i: usize = 0;
    while i < netfile_sources.len()
        invariant
            i <= netfile_sources.len(),
            netfile_sources@ == old(netfile_sources)@,
            vs == source_views(netfile_sources@),
            s == source@,
            forall|j: int| 0 <= j < i ==> !digests_overlap(#[trigger] vs[j], s),
        decreases netfile_sources.len() - i,
    {
        assert(vs[i as int] == netfile_sources@[i as int]@);
        if netfile_sources[i].overlaps(source) {
            proof {
                assert(is_first_overlap(vs, s, i as int));
                let i0 = choose|k: int| is_first_overlap(vs, s, k);
                lemma_first_overlap_unique(vs, s, i as int, i0);
                assert(i0 == i as int);
            }
            if netfile_sources[i].clashes(source) {
                return Err(());
            }
            let merged = match merge_sources(&netfile_sources[i], source) {
                Ok(m) => m,
                // The clash test above already ruled a merge error out.
                Err(()) => {
                    proof {
                        assert(false);
                    }
                    return Err(());
                },
            };
            netfile_sources.set(i, merged);
            proof {
                assert(source_views(netfile_sources@) =~= vs.update(
                    i as int,
                    merged_source(vs[i as int], s),
                ));
            }
            return Ok(());
        }
        i += 1;
    }
    proof {
        if exists|k: int| is_first_overlap(vs, s, k) {
            let i0 = choose|k: int| is_first_overlap(vs, s, k);
            assert(!digests_overlap(vs[i0], s));
        }
    }
    netfile_sources.push(source.dup());
    proof {
        assert(source_views(netfile_sources@) =~= vs.push(s));
    }
    Ok(())
}

/// Adds one git source to the deduplicated list: sources are the same mirror
/// exactly when their URL hashes agree.
pub fn push_git_sources(git_sources: &mut Vec<Source>, source: &Source)
    ensures
        source_views(final(git_sources)@) == push_git_spec(
            source_views(old(git_sources)@),
            source@,
        ),
        final(git_sources)@.len() <= old(git_sources)@.len() + 1,
{
    let ghost vs = source_views(old(git_sources)@);
    let ghost s = source@;
    let mut i: usize = 0;
    while i < git_sources.len()
        invariant
            i <= git_sources.len(),
            git_sources@ == old(git_sources)@,
            vs == source_views(git_sources@),
            s == source@,
            forall|j: int| 0 <= j < i ==> (#[trigger] vs[j]).hash_url != s.hash_url,
        decreases git_sources.len() - i,
    {
        assert(vs[i as int] == git_sources@[i as int]@);
        if git_sources[i].hash_url == source.hash_url {
            assert(vs[i as int].hash_url == s.hash_url);
            return ;
        }
        i += 1;
    }
    proof {
        if exists|j: int| 0 <= j < vs.len() && (#[trigger] vs[j]).hash_url == s.hash_url {
            let j = choose|j: int| 0 <= j < vs.len() && (#[trigger] vs[j]).hash_url == s.hash_url;
            assert(vs[j].hash_url != s.hash_url);
        }
    }
    git_sources.push(source.dup());
    proof {
        assert(source_views(git_sources@) =~= vs.push(s));
    }
}

/// What splitting and deduplicating a source list yields: netfile sources
/// merged by digest, git sources deduplicated by URL hash, local sources
/// kept in order; other version-control protocols are not supported and are
/// dropped.
pub open spec fn unique_sources_spec(ss: Seq<SourceV>) -> Result<
    (Seq<SourceV>, Seq<SourceV>, Seq<SourceV>),
    (),
>
    decreases ss.len(),
{
    if ss.len() == 0 {
        Ok((Seq::empty(), Seq::empty(), Seq::empty()))
    } else {
        match unique_sources_spec(ss.drop_last()) {
            Ok(acc) => {
                let s = ss.last();
                match s.protocol {
                    Protocol::Netfile { protocol: _ } => match push_netfile_spec(acc.0, s) {
                        Ok(n2) => Ok((n2, acc.1, acc.2)),
                        Err(e) => Err(e),
                    },
                    Protocol::Vcs { protocol } => if protocol is Git {
                        Ok((acc.0, push_git_spec(acc.1, s), acc.2))
                    } else {
                        Ok(acc)
                    },
                    Protocol::Local => Ok((acc.0, acc.1, acc.2.push(s))),
                }
            },
            Err(e) => Err(e),
        }
    }
}

/// Splits a recipe's sources into deduplicated netfile, git and local lists.
/// Returns the data error when two records share one digest value but state
/// another digest kind differently.
pub fn unique_sources(sources: &Vec<Source>) -> (r: Result<
    (Vec<Source>, Vec<Source>, Vec<Source>),
    (),
>)
    ensures
        match r {
            Ok(t) => unique_sources_spec(source_views(sources@)) == Ok::<
                (Seq<SourceV>, Seq<SourceV>, Seq<SourceV>),
                (),
            >((source_views(t.0@), source_views(t.1@), source_views(t.2@))),
            Err(()) => unique_sources_spec(source_views(sources@)) is Err,
        },
{
    let ghost all = source_views(sources@);
    let mut netfile_sources: Vec<Source> = Vec::new();
    let mut git_sources: Vec<Source> = Vec::new();
    let mut local_sources: Vec<Source> = Vec::new();
    let mut i: usize = 0;
    proof {
        assert(all.subrange(0, 0) =~= Seq::<SourceV>::empty());
        assert(source_views(netfile_sources@) =~= Seq::<SourceV>::empty());
        assert(source_views(git_sources@) =~= Seq::<SourceV>::empty());
        assert(source_views(local_sources@) =~= Seq::<SourceV>::empty());
    }
    while i < sources.len()
        invariant
            i <= sources.len(),
            all == source_views(sources@),
            unique_sources_spec(all.subrange(0, i as int)) == Ok::<
                (Seq<SourceV>, Seq<SourceV>, Seq<SourceV>),
                (),
            >(
                (
                    source_views(netfile_sources@),
                    source_views(git_sources@),
                    source_views(local_sources@),
                ),
            ),
        decreases sources.len() - i,
    {
        let ghost pre = all.subrange(0, i as int);
        let ghost post = all.subrange(0, i + 1 as int);
        proof {
            assert(post.drop_last() =~= pre);
            assert(post.last() == all[i as int]);
            assert(all[i as int] == sources@[i as int]@);
        }
        let source = &sources[i];
        match source.protocol {
            Protocol::Netfile { protocol: _ } => {
                match push_netfile_sources(&mut netfile_sources, source) {
                    Ok(()) => {},
                    Err(()) => {
                        proof {
                            lemma_unique_sources_err_extends(post, all);
                        }
                        return Err(());
                    },
                }
            },
            Protocol::Vcs { protocol } => {
                if matches!(protocol, VcsProtocol::Git) {
                    push_git_sources(&mut git_sources, source);
                }
            },
            Protocol::Local => {
                let ghost lv = source_views(local_sources@);
                local_sources.push(source.dup());
                proof {
                    assert(source_views(local_sources@) =~= lv.push(all[i as int]));
                }
            },
        }
        i += 1;
    }
    proof {
        assert(all.subrange(0, sources@.len() as int) =~= all);
    }
    Ok((netfile_sources, git_sources, local_sources))
}

/// An erring prefix makes the whole split err: the error is not recovered by
/// later sources.
pub proof fn lemma_unique_sources_err_extends(p: Seq<SourceV>, w: Seq<SourceV>)
    requires
        p.len() <= w.len(),
        w.subrange(0, p.len() as int) == p,
        unique_sources_spec(p) is Err,
    ensures
        unique_sources_spec(w) is Err,
    decreases w.len() - p.len(),
{
    if p.len() == w.len() {
        assert(w.subrange(0, p.len() as int) =~= w);
    } else {
        let q = w.subrange(0, p.len() as int + 1);
        assert(q.drop_last() =~= p);
        assert(unique_sources_spec(q) is Err);
        assert(w.subrange(0, q.len() as int) =~= q);
        lemma_unique_sources_err_extends(q, w);
    }
}

} // verus!
