//! Reading the recipe evaluator's source listing: `[source]` markers open
//! blocks, `key: value` lines fill one source's name, protocol, URL and
//! digests. A block without any digest has no cache key and is rejected; a
//! block missing its name, protocol or URL, an unknown key, and an
//! unparsable value are configuration errors that abort the run.
use vstd::prelude::*;
use vstd::string::StringSliceAdditionalSpecFns;

use crate::bytes::{byte_views, bytes_eq_slice, str_bytes};
use crate::checksum::{xxh3_64, xxh3_of};
use crate::hexfmt::{decoded_hex, hex_decode, is_hex_string};
use crate::source::{Protocol, Source, SourceV, opt_view, protocol_from_string,
    protocol_of_keyword, source_views};

verus! {

/// Splitter step keeping empty pieces: a separator always closes the
/// current piece.
pub open spec fn split_step(acc: (Seq<Seq<u8>>, Seq<u8>), b: u8, sep: u8) -> (
    Seq<Seq<u8>>,
    Seq<u8>,
) {
    if b == sep {
        (acc.0.push(acc.1), Seq::empty())
    } else {
        (acc.0, acc.1.push(b))
    }
}

/// The splitter folded over a byte string.
pub open spec fn split_fold(s: Seq<u8>, sep: u8) -> (Seq<Seq<u8>>, Seq<u8>)
    decreases s.len(),
{
    if s.len() == 0 {
        (Seq::empty(), Seq::empty())
    } else {
        split_step(split_fold(s.drop_last(), sep), s.last(), sep)
    }
}

/// A line with one trailing carriage return removed.
pub open spec fn strip_cr(l: Seq<u8>) -> Seq<u8> {
    if l.len() > 0 && l.last() == 13u8 {
        l.drop_last()
    } else {
        l
    }
}

/// The lines of a text: newline-separated pieces, without a final empty
/// piece, each without its trailing carriage return.
pub open spec fn lines_of(s: Seq<u8>) -> Seq<Seq<u8>> {
    let f = split_fold(s, 10);
    let pieces = if f.1.len() > 0 {
        f.0.push(f.1)
    } else {
        f.0
    };
    pieces.map_values(|l: Seq<u8>| strip_cr(l))
}

/// Splits a text into lines.
pub fn split_lines(s: &Vec<u8>) -> (r: Vec<Vec<u8>>)
    ensures
        byte_views(r@) == lines_of(s@),
{
    let mut done: Vec<Vec<u8>> = Vec::new();
    let mut cur: Vec<u8> = Vec::new();
    let mut i: usize = 0;
    proof {
        assert(s@.subrange(0, 0) =~= Seq::<u8>::empty());
        assert(byte_views(done@) =~= Seq::<Seq<u8>>::empty());
    }
    while i < s.len()
        invariant
            i <= s.len(),
            (byte_views(done@), cur@) == split_fold(s@.subrange(0, i as int), 10),
        decreases s.len() - i,
    {
        let ghost pre = s@.subrange(0, i as int);
        let ghost post = s@.subrange(0, i + 1 as int);
        proof {
            assert(post.drop_last() =~= pre);
            assert(post.last() == s@[i as int]);
        }
        let b = s[i];
        if b == 10 {
            let ghost dv = byte_views(done@);
            done.push(cur);
            cur = Vec::new();
            proof {
                assert(byte_views(done@) =~= dv.push(split_fold(pre, 10).1));
            }
        } else {
            cur.push(b);
        }
        i += 1;
    }
    proof {
        assert(s@.subrange(0, s@.len() as int) =~= s@);
    }
    if cur.len() > 0 {
        let ghost dv = byte_views(done@);
        done.push(cur);
        proof {
            assert(byte_views(done@) =~= dv.push(split_fold(s@, 10).1));
        }
    }
    let ghost pieces = byte_views(done@);
    let mut r: Vec<Vec<u8>> = Vec::new();
    let mut k: usize = 0;
    proof {
        assert(byte_views(r@) =~= pieces.subrange(0, 0).map_values(|l: Seq<u8>| strip_cr(l)));
    }
    while k < done.len()
        invariant
            k <= done.len(),
            pieces == byte_views(done@),
            byte_views(r@) == pieces.subrange(0, k as int).map_values(|l: Seq<u8>| strip_cr(l)),
        decreases done.len() - k,
    {
        assert(pieces[k as int] == done@[k as int]@);
        let line = &done[k];
        let ghost rv = byte_views(r@);
        let mut stripped = crate::source::clone_bytes(line);
        if stripped.len() > 0 && stripped[stripped.len() - 1] == 13 {
            let nl = stripped.len() - 1;
            stripped.truncate(nl);
        }
        proof {
            if pieces[k as int].len() > 0 && pieces[k as int].last() == 13u8 {
                assert(stripped@ =~= pieces[k as int].drop_last());
            }
            assert(stripped@ =~= strip_cr(pieces[k as int]));
        }
        let ghost sv = stripped@;
        r.push(stripped);
        proof {
            assert(byte_views(r@) =~= rv.push(sv));
            assert(pieces.subrange(0, k + 1 as int).drop_last() =~= pieces.subrange(0, k as int));
            assert(pieces.subrange(0, k + 1 as int)[k as int] == pieces[k as int]);
            assert(byte_views(r@) =~= pieces.subrange(0, k + 1 as int).map_values(
                |l: Seq<u8>| strip_cr(l),
            ));
        }
        k += 1;
    }
    proof {
        assert(pieces.subrange(0, done@.len() as int) =~= pieces);
    }
    r
}

/// An ASCII decimal digit.
pub open spec fn is_dec_digit(b: u8) -> bool {
    48 <= b <= 57
}

/// The value of a decimal digit string, folded left to right; None on any
/// non-digit.
pub open spec fn dec_fold(s: Seq<u8>) -> Option<int>
    decreases s.len(),
{
    if s.len() == 0 {
        Option::Some(0)
    } else {
        match dec_fold(s.drop_last()) {
            Option::Some(v) => if is_dec_digit(s.last()) {
                Option::Some(v * 10 + (s.last() - 48))
            } else {
                Option::<int>::None
            },
            Option::None => Option::None,
        }
    }
}

/// A 32-bit checksum value read from decimal text: nonempty, digits only,
/// in range.
pub open spec fn u32_of_dec(s: Seq<u8>) -> Option<u32> {
    if s.len() == 0 {
        Option::None
    } else {
        match dec_fold(s) {
            Option::Some(v) => if v <= u32::MAX {
                Option::Some(v as u32)
            } else {
                Option::<u32>::None
            },
            Option::None => Option::None,
        }
    }
}

/// The folded value is never negative.
pub proof fn lemma_dec_fold_nonneg(s: Seq<u8>)
    ensures
        dec_fold(s) matches Option::Some(v) ==> v >= 0,
    decreases s.len(),
{
    if s.len() > 0 {
        lemma_dec_fold_nonneg(s.drop_last());
    }
}

/// Extending the digits never shrinks the value, and never recovers from a
/// non-digit.
pub proof fn lemma_dec_fold_extend(s: Seq<u8>, k: int)
    requires
        0 <= k <= s.len(),
    ensures
        dec_fold(s.subrange(0, k)) is None ==> dec_fold(s) is None,
        dec_fold(s) matches Option::Some(v) ==> (dec_fold(s.subrange(0, k)) matches Option::Some(
            w,
        ) && v >= w),
    decreases s.len() - k,
{
    if k == s.len() {
        assert(s.subrange(0, k) =~= s);
    } else {
        lemma_dec_fold_extend(s, k + 1);
        let p = s.subrange(0, k);
        let q = s.subrange(0, k + 1);
        assert(q.drop_last() =~= p);
        lemma_dec_fold_nonneg(p);
    }
}

/// Reads a 32-bit checksum from decimal text.
pub fn parse_u32_dec(s: &Vec<u8>) -> (r: Result<u32, ()>)
    ensures
        (match r {
            Ok(v) => u32_of_dec(s@) == Option::Some(v),
            Err(()) => u32_of_dec(s@) is None,
        }),
{
    if s.len() == 0 {
        return Err(());
    }
    let mut acc: u32 = 0;
    let mut i: usize = 0;
    proof {
        assert(s@.subrange(0, 0) =~= Seq::<u8>::empty());
    }
    while i < s.len()
        invariant
            i <= s.len(),
            s@.len() > 0,
            dec_fold(s@.subrange(0, i as int)) == Option::Some(acc as int),
        decreases s.len() - i,
    {
        let ghost pre = s@.subrange(0, i as int);
        let ghost post = s@.subrange(0, i + 1 as int);
        proof {
            assert(post.drop_last() =~= pre);
            assert(post.last() == s@[i as int]);
        }
        let b = s[i];
        if b < 48 || b > 57 {
            proof {
                lemma_dec_fold_extend(s@, i + 1 as int);
            }
            return Err(());
        }
        let d = (b - 48) as u32;
        if acc > (u32::MAX - d) / 10 {
            proof {
                assert(dec_fold(post) == Option::Some(acc as int * 10 + d));
                assert(acc as int * 10 + d > u32::MAX) by (nonlinear_arith)
                    requires
                        acc > (u32::MAX - d) / 10,
                        0 <= d <= 9,
                        acc <= u32::MAX,
                ;
                lemma_dec_fold_extend(s@, i + 1 as int);
            }
            return Err(());
        }
        acc = acc * 10 + d;
        i += 1;
    }
    proof {
        assert(s@.subrange(0, s@.len() as int) =~= s@);
    }
    Ok(acc)
}

/// Spec-level value of a block under assembly.
pub ghost struct PartialV {
    pub name: Option<Seq<u8>>,
    pub protocol: Option<Protocol>,
    pub url: Option<Seq<u8>>,
    pub hash_url: u64,
    pub ck: Option<u32>,
    pub md5: Option<Seq<u8>>,
    pub sha1: Option<Seq<u8>>,
    pub sha224: Option<Seq<u8>>,
    pub sha256: Option<Seq<u8>>,
    pub sha384: Option<Seq<u8>>,
    pub sha512: Option<Seq<u8>>,
    pub b2: Option<Seq<u8>>,
}

/// One source block under assembly, its fields filled line by line.
pub struct PartialSource {
    pub name: Option<Vec<u8>>,
    pub protocol: Option<Protocol>,
    pub url: Option<Vec<u8>>,
    pub hash_url: u64,
    pub ck: Option<u32>,
    pub md5: Option<Vec<u8>>,
    pub sha1: Option<Vec<u8>>,
    pub sha224: Option<Vec<u8>>,
    pub sha256: Option<Vec<u8>>,
    pub sha384: Option<Vec<u8>>,
    pub sha512: Option<Vec<u8>>,
    pub b2: Option<Vec<u8>>,
}

impl View for PartialSource {
    type V = PartialV;

    open spec fn view(&self) -> PartialV {
        PartialV {
            name: opt_view(self.name),
            protocol: self.protocol,
            url: opt_view(self.url),
            hash_url: self.hash_url,
            ck: self.ck,
            md5: opt_view(self.md5),
            sha1: opt_view(self.sha1),
            sha224: opt_view(self.sha224),
            sha256: opt_view(self.sha256),
            sha384: opt_view(self.sha384),
            sha512: opt_view(self.sha512),
            b2: opt_view(self.b2),
        }
    }
}

/// A block with nothing set yet.
pub open spec fn empty_partial() -> PartialV {
    PartialV {
        name: Option::None,
        protocol: Option::None,
        url: Option::None,
        hash_url: 0,
        ck: Option::None,
        md5: Option::None,
        sha1: Option::None,
        sha224: Option::None,
        sha256: Option::None,
        sha384: Option::None,
        sha512: Option::None,
        b2: Option::None,
    }
}

impl PartialSource {
    /// A block with nothing set yet.
    pub fn new() -> (r: PartialSource)
        ensures
            r@ == empty_partial(),
    {
        PartialSource {
            name: Option::None,
            protocol: Option::None,
            url: Option::None,
            hash_url: 0,
            ck: Option::None,
            md5: Option::None,
            sha1: Option::None,
            sha224: Option::None,
            sha256: Option::None,
            sha384: Option::None,
            sha512: Option::None,
            b2: Option::None,
        }
    }
}

/// Whether the block states any digest.
pub open spec fn partial_has_digest(p: PartialV) -> bool {
    ||| p.ck is Some
    ||| p.md5 is Some
    ||| p.sha1 is Some
    ||| p.sha224 is Some
    ||| p.sha256 is Some
    ||| p.sha384 is Some
    ||| p.sha512 is Some
    ||| p.b2 is Some
}

/// Closing a block: one without any digest has no cache key and is dropped;
/// one with a digest but without its name, protocol or URL is a
/// configuration error; a complete one becomes a source record.
pub open spec fn flush_block(p: PartialV) -> Result<Option<SourceV>, ()> {
    if !partial_has_digest(p) {
        Ok(Option::None)
    } else {
        match (p.name, p.protocol, p.url) {
            (Option::Some(n), Option::Some(pr), Option::Some(u)) => Ok(
                Option::Some(
                    SourceV {
                        name: n,
                        protocol: pr,
                        url: u,
                        hash_url: p.hash_url,
                        ck: p.ck,
                        md5: p.md5,
                        sha1: p.sha1,
                        sha224: p.sha224,
                        sha256: p.sha256,
                        sha384: p.sha384,
                        sha512: p.sha512,
                        b2: p.b2,
                    },
                ),
            ),
            _ => Err(()),
        }
    }
}

/// Position `m` is the first `": "` separator of the line.
pub open spec fn is_first_kv(line: Seq<u8>, m: int) -> bool {
    &&& 0 <= m
    &&& m + 2 <= line.len()
    &&& line[m] == 58u8
    &&& line[m + 1] == 32u8
    &&& forall|j: int| 0 <= j < m ==> !(line[j] == 58u8 && #[trigger] line[j + 1] == 32u8)
}

/// At most one position is the first separator.
pub proof fn lemma_first_kv_unique(line: Seq<u8>, i: int, j: int)
    requires
        is_first_kv(line, i),
        is_first_kv(line, j),
    ensures
        i == j,
{
    if i < j {
        assert(!(line[i] == 58u8 && line[i + 1] == 32u8));
    } else if j < i {
        assert(!(line[j] == 58u8 && line[j + 1] == 32u8));
    }
}

/// What one `key: value` assignment does to the block: digests must parse
/// and have their kind's exact width; the URL's hash is taken as it is set;
/// an unknown key is a configuration error.
pub open spec fn apply_kv(cur: PartialV, key: Seq<u8>, value: Seq<u8>) -> Result<PartialV, ()> {
    if key == "name".spec_bytes() {
        Ok(PartialV { name: Option::Some(value), ..cur })
    } else if key == "protocol".spec_bytes() {
        match protocol_of_keyword(value) {
            Ok(p) => Ok(PartialV { protocol: Option::Some(p), ..cur }),
            Err(()) => Err(()),
        }
    } else if key == "url".spec_bytes() {
        Ok(PartialV { url: Option::Some(value), hash_url: xxh3_of(value), ..cur })
    } else if key == "cksum".spec_bytes() {
        match u32_of_dec(value) {
            Option::Some(v) => Ok(PartialV { ck: Option::Some(v), ..cur }),
            Option::None => Err(()),
        }
    } else if key == "md5sum".spec_bytes() {
        if is_hex_string(value) && value.len() == 32 {
            Ok(PartialV { md5: Option::Some(decoded_hex(value)), ..cur })
        } else {
            Err(())
        }
    } else if key == "sha1sum".spec_bytes() {
        if is_hex_string(value) && value.len() == 40 {
            Ok(PartialV { sha1: Option::Some(decoded_hex(value)), ..cur })
        } else {
            Err(())
        }
    } else if key == "sha224sum".spec_bytes() {
        if is_hex_string(value) && value.len() == 56 {
            Ok(PartialV { sha224: Option::Some(decoded_hex(value)), ..cur })
        } else {
            Err(())
        }
    } else if key == "sha256sum".spec_bytes() {
        if is_hex_string(value) && value.len() == 64 {
            Ok(PartialV { sha256: Option::Some(decoded_hex(value)), ..cur })
        } else {
            Err(())
        }
    } else if key == "sha384sum".spec_bytes() {
        if is_hex_string(value) && value.len() == 96 {
            Ok(PartialV { sha384: Option::Some(decoded_hex(value)), ..cur })
        } else {
            Err(())
        }
    } else if key == "sha512sum".spec_bytes() {
        if is_hex_string(value) && value.len() == 128 {
            Ok(PartialV { sha512: Option::Some(decoded_hex(value)), ..cur })
        } else {
            Err(())
        }
    } else if key == "b2sum".spec_bytes() {
        if is_hex_string(value) && value.len() == 128 {
            Ok(PartialV { b2: Option::Some(decoded_hex(value)), ..cur })
        } else {
            Err(())
        }
    } else {
        Err(())
    }
}

/// What one line does to the parser: a `[source]` marker opens the first
/// block or closes the current one; any other line must be a `key: value`
/// assignment.
pub open spec fn parse_step(started: bool, cur: PartialV, line: Seq<u8>) -> Result<
    (bool, PartialV, Seq<SourceV>),
    (),
> {
    if line == "[source]".spec_bytes() {
        if started {
            match flush_block(cur) {
                Ok(Option::Some(s)) => Ok((true, empty_partial(), seq![s])),
                Ok(Option::None) => Ok((true, empty_partial(), Seq::empty())),
                Err(()) => Err(()),
            }
        } else {
            Ok((true, cur, Seq::empty()))
        }
    } else {
        if exists|m: int| is_first_kv(line, m) {
            let m = choose|m: int| is_first_kv(line, m);
            match apply_kv(cur, line.subrange(0, m), line.subrange(m + 2, line.len() as int)) {
                Ok(c2) => Ok((started, c2, Seq::empty())),
                Err(()) => Err(()),
            }
        } else {
            Err(())
        }
    }
}

/// The parser folded over the lines seen so far.
pub open spec fn parse_fold(lines: Seq<Seq<u8>>) -> Result<(bool, PartialV, Seq<SourceV>), ()>
    decreases lines.len(),
{
    if lines.len() == 0 {
        Ok((false, empty_partial(), Seq::empty()))
    } else {
        match parse_fold(lines.drop_last()) {
            Ok((st, cur, out)) => match parse_step(st, cur, lines.last()) {
                Ok((st2, cur2, em)) => Ok((st2, cur2, out + em)),
                Err(()) => Err(()),
            },
            Err(()) => Err(()),
        }
    }
}

/// The sources a recipe's listing declares: the blocks the lines assemble,
/// the last block closed at the end of the output.
pub open spec fn parse_sources_spec(lines: Seq<Seq<u8>>) -> Result<Seq<SourceV>, ()> {
    match parse_fold(lines) {
        Ok((_, cur, out)) => match flush_block(cur) {
            Ok(Option::Some(s)) => Ok(out.push(s)),
            Ok(Option::None) => Ok(out),
            Err(()) => Err(()),
        },
        Err(()) => Err(()),
    }
}

/// An erring fold makes the whole listing err.
pub proof fn lemma_parse_sources_err(lines: Seq<Seq<u8>>)
    requires
        parse_fold(lines) is Err,
    ensures
        parse_sources_spec(lines) is Err,
{
}

/// An erring prefix makes the whole fold err.
pub proof fn lemma_parse_fold_err_extends(p: Seq<Seq<u8>>, w: Seq<Seq<u8>>)
    requires
        p.len() <= w.len(),
        w.subrange(0, p.len() as int) == p,
        parse_fold(p) is Err,
    ensures
        parse_fold(w) is Err,
    decreases w.len() - p.len(),
{
    if p.len() == w.len() {
        assert(w.subrange(0, p.len() as int) =~= w);
    } else {
        let q = w.subrange(0, p.len() as int + 1);
        assert(q.drop_last() =~= p);
        assert(w.subrange(0, q.len() as int) =~= q);
        lemma_parse_fold_err_extends(q, w);
    }
}

/// Reads a digest value of one kind's exact width from lowercase or
/// uppercase hex text.
pub fn parse_hex_digest(value: &Vec<u8>, hex_len: usize) -> (r: Result<Vec<u8>, ()>)
    ensures
        r is Ok <==> is_hex_string(value@) && value@.len() == hex_len,
        r matches Ok(d) ==> d@ == decoded_hex(value@),
{
    if value.len() != hex_len {
        return Err(());
    }
    match hex_decode(value) {
        Ok(d) => Ok(d),
        Err(()) => Err(()),
    }
}

/// Closes the block under assembly into the source list, as `flush_block`
/// says: digestless blocks are dropped, incomplete ones are the
/// configuration error.
pub fn flush_partial(cur: &PartialSource, out: &mut Vec<Source>) -> (r: Result<(), ()>)
    ensures
        (match flush_block(cur@) {
            Ok(Option::Some(s)) => r is Ok && source_views(final(out)@) == source_views(
                old(out)@,
            ).push(s),
            Ok(Option::None) => r is Ok && final(out)@ == old(out)@,
            Err(()) => r is Err,
        }),
{
    let any_digest = matches!(cur.ck, Option::Some(_)) || matches!(cur.md5, Option::Some(_))
        || matches!(cur.sha1, Option::Some(_)) || matches!(cur.sha224, Option::Some(_))
        || matches!(cur.sha256, Option::Some(_)) || matches!(cur.sha384, Option::Some(_))
        || matches!(cur.sha512, Option::Some(_)) || matches!(cur.b2, Option::Some(_));
    if !any_digest {
        return Ok(());
    }
    match (&cur.name, &cur.protocol, &cur.url) {
        (Option::Some(n), Option::Some(p), Option::Some(u)) => {
            let ghost ov = source_views(out@);
            let s = Source {
                name: crate::source::clone_bytes(n),
                protocol: *p,
                url: crate::source::clone_bytes(u),
                hash_url: cur.hash_url,
                ck: cur.ck,
                md5: crate::source::clone_opt_bytes(&cur.md5),
                sha1: crate::source::clone_opt_bytes(&cur.sha1),
                sha224: crate::source::clone_opt_bytes(&cur.sha224),
                sha256: crate::source::clone_opt_bytes(&cur.sha256),
                sha384: crate::source::clone_opt_bytes(&cur.sha384),
                sha512: crate::source::clone_opt_bytes(&cur.sha512),
                b2: crate::source::clone_opt_bytes(&cur.b2),
            };
            out.push(s);
            proof {
                assert(source_views(out@) =~= ov.push(
                    flush_block(cur@)->Ok_0->Some_0,
                ));
            }
            Ok(())
        },
        _ => Err(()),
    }
}

/// Feeds one line to the parser, as `parse_step` says.
pub fn parse_line(
    started: bool,
    cur: &mut PartialSource,
    line: &Vec<u8>,
    out: &mut Vec<Source>,
) -> (r: Result<bool, ()>)
    ensures
        (match parse_step(started, old(cur)@, line@) {
            Ok(t) => r == Ok::<bool, ()>(t.0) && final(cur)@ == t.1 && source_views(final(out)@)
                == source_views(old(out)@) + t.2,
            Err(()) => r is Err,
        }),
{
    if bytes_eq_slice(line, "[source]".as_bytes()) {
        if started {
            let ghost ov = source_views(out@);
            match flush_partial(cur, out) {
                Ok(()) => {},
                Err(()) => {
                    return Err(());
                },
            }
            *cur = PartialSource::new();
            proof {
                match flush_block(old(cur)@) {
                    Ok(Option::Some(s)) => {
                        assert(source_views(out@) =~= ov + seq![s]);
                    },
                    Ok(Option::None) => {
                        assert(source_views(out@) =~= ov + Seq::<SourceV>::empty());
                    },
                    Err(()) => {},
                }
            }
            Ok(true)
        } else {
            assert(source_views(out@) =~= source_views(out@) + Seq::<SourceV>::empty());
            Ok(true)
        }
    } else {
        let n = line.len();
        let mut m: usize = 0;
        let mut found = false;
        while m + 1 < n && !found
            invariant
                n == line@.len(),
                m == 0 || m < line@.len(),
                forall|j: int|
                    0 <= j < m ==> !(line@[j] == 58u8 && #[trigger] line@[j + 1] == 32u8),
                found ==> m + 2 <= line@.len() && line@[m as int] == 58u8 && line@[m + 1] == 32u8,
            decreases line.len() - m + (if found {
                0int
            } else {
                1int
            }),
        {
            if line[m] == 58 && line[m + 1] == 32 {
                found = true;
            } else {
                m += 1;
            }
        }
        if !found {
            proof {
                if exists|k: int| is_first_kv(line@, k) {
                    let k = choose|k: int| is_first_kv(line@, k);
                    assert(!(line@[k] == 58u8 && line@[k + 1] == 32u8));
                }
            }
            return Err(());
        }
        proof {
            assert(is_first_kv(line@, m as int));
            let m0 = choose|k: int| is_first_kv(line@, k);
            lemma_first_kv_unique(line@, m as int, m0);
        }
        let key = crate::bytes::sub_bytes(line, 0, m);
        let value = crate::bytes::sub_bytes(line, m + 2, line.len());
        if bytes_eq_slice(&key, "name".as_bytes()) {
            cur.name = Option::Some(value);
            assert(source_views(out@) =~= source_views(out@) + Seq::<SourceV>::empty());
            Ok(started)
        } else if bytes_eq_slice(&key, "protocol".as_bytes()) {
            match protocol_from_string(&value) {
                Ok(p) => {
                    cur.protocol = Option::Some(p);
                    assert(source_views(out@) =~= source_views(out@) + Seq::<SourceV>::empty());
                    Ok(started)
                },
                Err(()) => Err(()),
            }
        } else if bytes_eq_slice(&key, "url".as_bytes()) {
            cur.hash_url = xxh3_64(&value);
            cur.url = Option::Some(value);
            assert(source_views(out@) =~= source_views(out@) + Seq::<SourceV>::empty());
            Ok(started)
        } else if bytes_eq_slice(&key, "cksum".as_bytes()) {
            match parse_u32_dec(&value) {
                Ok(v) => {
                    cur.ck = Option::Some(v);
                    assert(source_views(out@) =~= source_views(out@) + Seq::<SourceV>::empty());
                    Ok(started)
                },
                Err(()) => Err(()),
            }
        } else if bytes_eq_slice(&key, "md5sum".as_bytes()) {
            match parse_hex_digest(&value, 32) {
                Ok(d) => {
                    cur.md5 = Option::Some(d);
                    assert(source_views(out@) =~= source_views(out@) + Seq::<SourceV>::empty());
                    Ok(started)
                },
                Err(()) => Err(()),
            }
        } else if bytes_eq_slice(&key, "sha1sum".as_bytes()) {
            match parse_hex_digest(&value, 40) {
                Ok(d) => {
                    cur.sha1 = Option::Some(d);
                    assert(source_views(out@) =~= source_views(out@) + Seq::<SourceV>::empty());
                    Ok(started)
                },
                Err(()) => Err(()),
            }
        } else if bytes_eq_slice(&key, "sha224sum".as_bytes()) {
            match parse_hex_digest(&value, 56) {
                Ok(d) => {
                    cur.sha224 = Option::Some(d);
                    assert(source_views(out@) =~= source_views(out@) + Seq::<SourceV>::empty());
                    Ok(started)
                },
                Err(()) => Err(()),
            }
        } else if bytes_eq_slice(&key, "sha256sum".as_bytes()) {
            match parse_hex_digest(&value, 64) {
                Ok(d) => {
                    cur.sha256 = Option::Some(d);
                    assert(source_views(out@) =~= source_views(out@) + Seq::<SourceV>::empty());
                    Ok(started)
                },
                Err(()) => Err(()),
            }
        } else if bytes_eq_slice(&key, "sha384sum".as_bytes()) {
            match parse_hex_digest(&value, 96) {
                Ok(d) => {
                    cur.sha384 = Option::Some(d);
                    assert(source_views(out@) =~= source_views(out@) + Seq::<SourceV>::empty());
                    Ok(started)
                },
                Err(()) => Err(()),
            }
        } else if bytes_eq_slice(&key, "sha512sum".as_bytes()) {
            match parse_hex_digest(&value, 128) {
                Ok(d) => {
                    cur.sha512 = Option::Some(d);
                    assert(source_views(out@) =~= source_views(out@) + Seq::<SourceV>::empty());
                    Ok(started)
                },
                Err(()) => Err(()),
            }
        } else if bytes_eq_slice(&key, "b2sum".as_bytes()) {
            match parse_hex_digest(&value, 128) {
                Ok(d) => {
                    cur.b2 = Option::Some(d);
                    assert(source_views(out@) =~= source_views(out@) + Seq::<SourceV>::empty());
                    Ok(started)
                },
                Err(()) => Err(()),
            }
        } else {
            Err(())
        }
    }
}

/// Reads the recipe evaluator's whole source listing into source records;
/// any malformed line, incomplete block or unknown key is the configuration
/// error that aborts the run before fetching begins.
#[verifier::rlimit(100)]
#[verifier::spinoff_prover]
pub fn get_sources(output: &Vec<u8>) -> (r: Result<Vec<Source>, ()>)
    ensures
        (match r {
            Ok(v) => parse_sources_spec(lines_of(output@)) == Ok::<Seq<SourceV>, ()>(
                source_views(v@),
            ),
            Err(()) => parse_sources_spec(lines_of(output@)) is Err,
        }),
{
    let lines = split_lines(output);
    let ghost lv = lines_of(output@);
    let mut started = false;
    let mut cur = PartialSource::new();
    let mut out: Vec<Source> = Vec::new();
    let mut i: usize = 0;
    proof {
        assert(lv.subrange(0, 0) =~= Seq::<Seq<u8>>::empty());
        assert(source_views(out@) =~= Seq::<SourceV>::empty());
    }
    while i < lines.len()
        invariant
            i <= lines@.len(),
            lv == lines_of(output@),
            byte_views(lines@) == lv,
            parse_fold(lv.subrange(0, i as int)) == Ok::<(bool, PartialV, Seq<SourceV>), ()>(
                (started, cur@, source_views(out@)),
            ),
        decreases lines.len() - i,
    {
        let ghost pre = lv.subrange(0, i as int);
        let ghost post = lv.subrange(0, i + 1 as int);
        proof {
            assert(post.drop_last() =~= pre);
            assert(post.last() == lv[i as int]);
            assert(lv[i as int] == lines@[i as int]@);
        }
        let ghost cv = cur@;
        let ghost st0 = started;
        match parse_line(started, &mut cur, &lines[i], &mut out) {
            Ok(st) => {
                started = st;
            },
            Err(()) => {
                proof {
                    assert(parse_step(st0, cv, lv[i as int]) is Err);
                    assert(parse_fold(post) is Err);
                    lemma_parse_fold_err_extends(post, lv);
                    lemma_parse_sources_err(lv);
                }
                return Err(());
            },
        }
        i += 1;
    }
    proof {
        assert(lv.subrange(0, lines@.len() as int) =~= lv);
    }
    match flush_partial(&cur, &mut out) {
        Ok(()) => Ok(out),
        Err(()) => Err(()),
    }
}

} // verus!
