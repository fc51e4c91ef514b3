//! Integrity files: the on-disk cache entry for one (digest kind, digest
//! value) pair, and the plan that makes every entry of a source good — by
//! local clone from an already-good entry wherever one exists, by network
//! fetch only when none does.
use vstd::prelude::*;
use vstd::string::StringSliceAdditionalSpecFns;

use crate::bytes::{append_bytes, push_byte, str_bytes};
use crate::hexfmt::{bytes_to_hex, hex_of_bytes};
use crate::source::{Source, SourceV, has_digest};

verus! {

/// The eight digest kinds the cache is keyed by.
#[derive(Clone, Copy, PartialEq, Eq, Structural, Debug)]
pub enum DigestKind {
    Ck,
    Md5,
    Sha1,
    Sha224,
    Sha256,
    Sha384,
    Sha512,
    B2,
}

/// The cache directory holding entries of one digest kind.
pub open spec fn kind_dir(k: DigestKind) -> Seq<u8> {
    match k {
        DigestKind::Ck => "sources/file-ck".spec_bytes(),
        DigestKind::Md5 => "sources/file-md5".spec_bytes(),
        DigestKind::Sha1 => "sources/file-sha1".spec_bytes(),
        DigestKind::Sha224 => "sources/file-sha224".spec_bytes(),
        DigestKind::Sha256 => "sources/file-sha256".spec_bytes(),
        DigestKind::Sha384 => "sources/file-sha384".spec_bytes(),
        DigestKind::Sha512 => "sources/file-sha512".spec_bytes(),
        DigestKind::B2 => "sources/file-b2".spec_bytes(),
    }
}

/// Spec-level value of one cache entry.
pub ghost struct IntegFileV {
    pub kind: DigestKind,
    pub hex: Seq<u8>,
}

/// One cache entry: a digest kind and the lowercase-hex digest value that is
/// its file name under the kind's directory.
pub struct IntegFile {
    pub kind: DigestKind,
    pub hex: Vec<u8>,
}

impl View for IntegFile {
    type V = IntegFileV;

    open spec fn view(&self) -> IntegFileV {
        IntegFileV { kind: self.kind, hex: self.hex@ }
    }
}

/// The fixed cache path of an entry: `<kind dir>/<hex digest>`.
pub open spec fn integ_path(f: IntegFileV) -> Seq<u8> {
    kind_dir(f.kind) + seq![47u8] + f.hex
}

impl IntegFile {
    /// The path of this entry relative to the working directory.
    pub fn path(&self) -> (r: Vec<u8>)
        ensures
            r@ == integ_path(self@),
    {
        let mut r = match self.kind {
            DigestKind::Ck => str_bytes("sources/file-ck"),
            DigestKind::Md5 => str_bytes("sources/file-md5"),
            DigestKind::Sha1 => str_bytes("sources/file-sha1"),
            DigestKind::Sha224 => str_bytes("sources/file-sha224"),
            DigestKind::Sha256 => str_bytes("sources/file-sha256"),
            DigestKind::Sha384 => str_bytes("sources/file-sha384"),
            DigestKind::Sha512 => str_bytes("sources/file-sha512"),
            DigestKind::B2 => str_bytes("sources/file-b2"),
        };
        push_byte(&mut r, 47);
        append_bytes(&mut r, &self.hex);
        r
    }
}

/// The big-endian bytes of a 32-bit checksum value.
pub open spec fn be_bytes_u32(v: u32) -> Seq<u8> {
    seq![
        ((v >> 24) & 0xff) as u8,
        ((v >> 16) & 0xff) as u8,
        ((v >> 8) & 0xff) as u8,
        (v & 0xff) as u8,
    ]
}

/// The views of a sequence of cache entries.
pub open spec fn integ_views(fs: Seq<IntegFile>) -> Seq<IntegFileV> {
    fs.map_values(|f: IntegFile| f@)
}

/// The cache entry of one digest, where the source states it.
pub open spec fn opt_entry(k: DigestKind, d: Option<Seq<u8>>) -> Seq<IntegFileV> {
    match d {
        Option::Some(v) => seq![IntegFileV { kind: k, hex: hex_of_bytes(v) }],
        Option::None => Seq::empty(),
    }
}

/// The cache entries a source requires: one per digest it states, in the
/// fixed kind order.
pub open spec fn integ_files_of(s: SourceV) -> Seq<IntegFileV> {
    opt_entry(
        DigestKind::Ck,
        match s.ck {
            Option::Some(v) => Option::Some(be_bytes_u32(v)),
            Option::None => Option::None,
        },
    ) + opt_entry(DigestKind::Md5, s.md5) + opt_entry(DigestKind::Sha1, s.sha1) + opt_entry(
        DigestKind::Sha224,
        s.sha224,
    ) + opt_entry(DigestKind::Sha256, s.sha256) + opt_entry(DigestKind::Sha384, s.sha384)
        + opt_entry(DigestKind::Sha512, s.sha512) + opt_entry(DigestKind::B2, s.b2)
}

/// Number of digests a source states.
pub open spec fn digest_count(s: SourceV) -> int {
    (if s.ck is Some {
        1int
    } else {
        0int
    }) + (if s.md5 is Some {
        1int
    } else {
        0int
    }) + (if s.sha1 is Some {
        1int
    } else {
        0int
    }) + (if s.sha224 is Some {
        1int
    } else {
        0int
    }) + (if s.sha256 is Some {
        1int
    } else {
        0int
    }) + (if s.sha384 is Some {
        1int
    } else {
        0int
    }) + (if s.sha512 is Some {
        1int
    } else {
        0int
    }) + (if s.b2 is Some {
        1int
    } else {
        0int
    })
}

/// Enumerates the cache entries of a source: one per digest it states. A
/// source with at least one digest yields at least one entry.
#[verifier::rlimit(60)]
pub fn get_integ_files(source: &Source) -> (r: Vec<IntegFile>)
    ensures
        integ_views(r@) == integ_files_of(source@),
        r@.len() == digest_count(source@),
        has_digest(source@) ==> r@.len() >= 1,
{
    let ghost s = source@;
    let ghost e1 = opt_entry(
        DigestKind::Ck,
        match s.ck {
            Option::Some(v) => Option::Some(be_bytes_u32(v)),
            Option::None => Option::None,
        },
    );
    let ghost e2 = opt_entry(DigestKind::Md5, s.md5);
    let ghost e3 = opt_entry(DigestKind::Sha1, s.sha1);
    let ghost e4 = opt_entry(DigestKind::Sha224, s.sha224);
    let ghost e5 = opt_entry(DigestKind::Sha256, s.sha256);
    let ghost e6 = opt_entry(DigestKind::Sha384, s.sha384);
    let ghost e7 = opt_entry(DigestKind::Sha512, s.sha512);
    let ghost e8 = opt_entry(DigestKind::B2, s.b2);
    let mut r: Vec<IntegFile> = Vec::new();
    if let Option::Some(ck) = &source.ck {
        let v = *ck;
        let mut b: Vec<u8> = Vec::new();
        b.push(((v >> 24) & 0xff) as u8);
        b.push(((v >> 16) & 0xff) as u8);
        b.push(((v >> 8) & 0xff) as u8);
        b.push((v & 0xff) as u8);
        assert(b@ =~= be_bytes_u32(v));
        r.push(IntegFile { kind: DigestKind::Ck, hex: bytes_to_hex(&b) });
    }
    assert(integ_views(r@) =~= e1);
    if let Option::Some(d) = &source.md5 {
        r.push(IntegFile { kind: DigestKind::Md5, hex: bytes_to_hex(d) });
    }
    assert(integ_views(r@) =~= e1 + e2);
    if let Option::Some(d) = &source.sha1 {
        r.push(IntegFile { kind: DigestKind::Sha1, hex: bytes_to_hex(d) });
    }
    assert(integ_views(r@) =~= e1 + e2 + e3);
    if let Option::Some(d) = &source.sha224 {
        r.push(IntegFile { kind: DigestKind::Sha224, hex: bytes_to_hex(d) });
    }
    assert(integ_views(r@) =~= e1 + e2 + e3 + e4);
    if let Option::Some(d) = &source.sha256 {
        r.push(IntegFile { kind: DigestKind::Sha256, hex: bytes_to_hex(d) });
    }
    assert(integ_views(r@) =~= e1 + e2 + e3 + e4 + e5);
    if let Option::Some(d) = &source.sha384 {
        r.push(IntegFile { kind: DigestKind::Sha384, hex: bytes_to_hex(d) });
    }
    assert(integ_views(r@) =~= e1 + e2 + e3 + e4 + e5 + e6);
    if let Option::Some(d) = &source.sha512 {
        r.push(IntegFile { kind: DigestKind::Sha512, hex: bytes_to_hex(d) });
    }
    assert(integ_views(r@) =~= e1 + e2 + e3 + e4 + e5 + e6 + e7);
    if let Option::Some(d) = &source.b2 {
        r.push(IntegFile { kind: DigestKind::B2, hex: bytes_to_hex(d) });
    }
    assert(integ_views(r@) =~= e1 + e2 + e3 + e4 + e5 + e6 + e7 + e8);
    assert(integ_files_of(s) == e1 + e2 + e3 + e4 + e5 + e6 + e7 + e8);
    r
}

/// One step of making a cache entry good. Indices refer to the source's
/// entry list as `get_integ_files` returns it.
#[derive(Clone, Copy, PartialEq, Eq, Structural, Debug)]
pub enum CacheAction {
    /// Hardlink or copy the content of an already-good entry over a bad one.
    CloneFrom { good: usize, bad: usize },
    /// Fetch the artifact from its URL into the entry's path, then verify.
    Download { bad: usize },
}

/// The entry an action repairs.
pub open spec fn action_bad(a: CacheAction) -> usize {
    match a {
        CacheAction::CloneFrom { good: _, bad } => bad,
        CacheAction::Download { bad } => bad,
    }
}

/// The repair plan over a list of good entries and a list of bad ones: bad
/// entries are taken from the end; each is cloned from the most recently
/// good entry, or downloaded when none is good yet; a repaired entry counts
/// as good from then on.
pub open spec fn plan_rec(goods: Seq<usize>, bads: Seq<usize>) -> Seq<CacheAction>
    decreases bads.len(),
{
    if bads.len() == 0 {
        Seq::empty()
    } else {
        let b = bads.last();
        let act = if goods.len() > 0 {
            CacheAction::CloneFrom { good: goods.last(), bad: b }
        } else {
            CacheAction::Download { bad: b }
        };
        seq![act] + plan_rec(goods.push(b), bads.drop_last())
    }
}

/// The indices whose validity flag equals `want`, in increasing order.
pub open spec fn indices_with(v: Seq<bool>, want: bool) -> Seq<usize>
    decreases v.len(),
{
    if v.len() == 0 {
        Seq::empty()
    } else {
        indices_with(v.drop_last(), want) + (if v.last() == want {
            seq![(v.len() - 1) as usize]
        } else {
            Seq::empty()
        })
    }
}

/// Collects the indices whose flag equals `want`.
fn collect_indices(valid: &Vec<bool>, want: bool) -> (r: Vec<usize>)
    ensures
        r@ == indices_with(valid@, want),
{
    let mut r: Vec<usize> = Vec::new();
    let mut i: usize = 0;
    proof {
        assert(valid@.subrange(0, 0) =~= Seq::<bool>::empty());
    }
    while i < valid.len()
        invariant
            i <= valid.len(),
            r@ == indices_with(valid@.subrange(0, i as int), want),
        decreases valid.len() - i,
    {
        let ghost pre = valid@.subrange(0, i as int);
        let ghost post = valid@.subrange(0, i + 1 as int);
        proof {
            assert(post.drop_last() =~= pre);
            assert(post.last() == valid@[i as int]);
        }
        if valid[i] == want {
            r.push(i);
            assert(r@ =~= indices_with(post, want));
        } else {
            assert(r@ =~= indices_with(post, want));
        }
        i += 1;
    }
    assert(valid@.subrange(0, valid@.len() as int) =~= valid@);
    r
}

/// Computes the plan that makes every cache entry of one source good, from
/// the validity of each entry as recomputing its digest found it. A source
/// with no entries at all has no cache key and is an ingestion error.
pub fn cache_netfile_source(valid: &Vec<bool>) -> (r: Result<Vec<CacheAction>, ()>)
    ensures
        r is Ok <==> valid@.len() > 0,
        r matches Ok(plan) ==> plan@ == plan_rec(
            indices_with(valid@, true),
            indices_with(valid@, false),
        ),
{
    if valid.len() == 0 {
        return Err(());
    }
    let mut goods = collect_indices(valid, true);
    let mut bads = collect_indices(valid, false);
    let ghost goods0 = goods@;
    let ghost bads0 = bads@;
    let mut plan: Vec<CacheAction> = Vec::new();
    proof {
        assert(plan@ + plan_rec(goods@, bads@) =~= plan_rec(goods0, bads0));
    }
    while bads.len() > 0
        invariant
            plan@ + plan_rec(goods@, bads@) == plan_rec(goods0, bads0),
        decreases bads@.len(),
    {
        let bl = bads.len();
        let b = bads[bl - 1];
        bads.truncate(bl - 1);
        let ghost gpre = goods@;
        let ghost bpre = bads@.push(b);
        assert(bpre.last() == b);
        assert(bpre.drop_last() =~= bads@);
        let act = if goods.len() > 0 {
            let g = goods[goods.len() - 1];
            assert(g == gpre.last());
            CacheAction::CloneFrom { good: g, bad: b }
        } else {
            CacheAction::Download { bad: b }
        };
        plan.push(act);
        goods.push(b);
        proof {
            assert(plan_rec(gpre, bpre) == seq![act] + plan_rec(goods@, bads@));
            assert(plan@ + plan_rec(goods@, bads@) =~= plan_rec(goods0, bads0));
        }
    }
    assert(plan_rec(goods@, bads@) =~= Seq::<CacheAction>::empty());
    assert(plan@ =~= plan_rec(goods0, bads0));
    Ok(plan)
}

/// Law: the plan repairs exactly the bad entries, once each, last first.
pub proof fn lemma_cache_plan_covers(goods: Seq<usize>, bads: Seq<usize>)
    ensures
        plan_rec(goods, bads).len() == bads.len(),
        forall|k: int|
            0 <= k < bads.len() ==> action_bad(#[trigger] plan_rec(goods, bads)[k]) == bads[bads.len()
                - 1 - k],
    decreases bads.len(),
{
    if bads.len() > 0 {
        lemma_cache_plan_covers(goods.push(bads.last()), bads.drop_last());
        let p = plan_rec(goods, bads);
        assert forall|k: int| 0 <= k < bads.len() implies action_bad(#[trigger] p[k]) == bads[bads.len()
            - 1 - k] by {
            if k > 0 {
                assert(p[k] == plan_rec(goods.push(bads.last()), bads.drop_last())[k - 1]);
                assert(bads.drop_last()[bads.drop_last().len() - 1 - (k - 1)] == bads[bads.len() - 1
                    - k]);
            }
        }
    }
}

/// Law: while some entry is good, nothing is ever downloaded — every bad
/// entry is backfilled by a local clone.
pub proof fn lemma_cache_plan_no_download_when_good(goods: Seq<usize>, bads: Seq<usize>)
    requires
        goods.len() > 0,
    ensures
        forall|k: int|
            0 <= k < plan_rec(goods, bads).len() ==> #[trigger] plan_rec(goods, bads)[k]
                is CloneFrom,
    decreases bads.len(),
{
    if bads.len() > 0 {
        lemma_cache_plan_no_download_when_good(goods.push(bads.last()), bads.drop_last());
        let p = plan_rec(goods, bads);
        assert forall|k: int| 0 <= k < p.len() implies #[trigger] p[k] is CloneFrom by {
            if k > 0 {
                assert(p[k] == plan_rec(goods.push(bads.last()), bads.drop_last())[k - 1]);
            }
        }
    }
}

/// Law: when no entry is good, the network is used exactly once — the first
/// action downloads, every later entry is cloned from it.
pub proof fn lemma_cache_plan_one_download(goods: Seq<usize>, bads: Seq<usize>)
    requires
        goods.len() == 0,
        bads.len() > 0,
    ensures
        plan_rec(goods, bads)[0] is Download,
        forall|k: int|
            1 <= k < plan_rec(goods, bads).len() ==> #[trigger] plan_rec(goods, bads)[k]
                is CloneFrom,
{
    lemma_cache_plan_no_download_when_good(goods.push(bads.last()), bads.drop_last());
    let p = plan_rec(goods, bads);
    assert forall|k: int| 1 <= k < p.len() implies #[trigger] p[k] is CloneFrom by {
        assert(p[k] == plan_rec(goods.push(bads.last()), bads.drop_last())[k - 1]);
        lemma_cache_plan_covers(goods.push(bads.last()), bads.drop_last());
    }
}

} // verus!
