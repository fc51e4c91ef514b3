//! Dependency normalisation: the recipe's declared dependency names, one per
//! line of the shell evaluator's output, are tokenized, sorted and
//! deduplicated; the hash of the package manager's verbose info output over
//! them keys the build cache.
use vstd::prelude::*;

use crate::bytes::{byte_views, bytes_eq_slice, bytes_le, lex_le};
use crate::checksum::{xxh3_64, xxh3_of};
use crate::source::clone_bytes;

verus! {

/// One tokenizer step: a separator closes the current token (empty tokens
/// are dropped), any other byte extends it.
pub open spec fn tok_step(acc: (Seq<Seq<u8>>, Seq<u8>), b: u8, sep: u8) -> (Seq<Seq<u8>>, Seq<u8>) {
    if b == sep {
        if acc.1.len() > 0 {
            (acc.0.push(acc.1), Seq::empty())
        } else {
            acc
        }
    } else {
        (acc.0, acc.1.push(b))
    }
}

/// The tokenizer folded over a byte string: closed tokens and the open one.
pub open spec fn tok_fold(s: Seq<u8>, sep: u8) -> (Seq<Seq<u8>>, Seq<u8>)
    decreases s.len(),
{
    if s.len() == 0 {
        (Seq::empty(), Seq::empty())
    } else {
        tok_step(tok_fold(s.drop_last(), sep), s.last(), sep)
    }
}

/// The nonempty runs between separators, in order.
pub open spec fn tokens_of(s: Seq<u8>, sep: u8) -> Seq<Seq<u8>> {
    let f = tok_fold(s, sep);
    if f.1.len() > 0 {
        f.0.push(f.1)
    } else {
        f.0
    }
}

/// Splits a byte string on a separator, dropping empty pieces.
pub fn split_tokens(s: &Vec<u8>, sep: u8) -> (r: Vec<Vec<u8>>)
    ensures
        byte_views(r@) == tokens_of(s@, sep),
{
    let mut done: Vec<Vec<u8>> = Vec::new();
    let mut cur: Vec<u8> = Vec::new();
    let mut i: usize = 0;
    proof {
        assert(s@.subrange(0, 0) =~= Seq::<u8>::empty());
        assert(byte_views(done@) =~= Seq::<Seq<u8>>::empty());
    }
    while i < s.len()
        invariant
            i <= s.len(),
            (byte_views(done@), cur@) == tok_fold(s@.subrange(0, i as int), sep),
        decreases s.len() - i,
    {
        let ghost pre = s@.subrange(0, i as int);
        let ghost post = s@.subrange(0, i + 1 as int);
        proof {
            assert(post.drop_last() =~= pre);
            assert(post.last() == s@[i as int]);
        }
        let b = s[i];
        if b == sep {
            if cur.len() > 0 {
                let ghost dv = byte_views(done@);
                done.push(cur);
                cur = Vec::new();
                proof {
                    assert(byte_views(done@) =~= dv.push(tok_fold(pre, sep).1));
                }
            }
        } else {
            cur.push(b);
        }
        i += 1;
    }
    proof {
        assert(s@.subrange(0, s@.len() as int) =~= s@);
    }
    if cur.len() > 0 {
        let ghost dv = byte_views(done@);
        done.push(cur);
        proof {
            assert(byte_views(done@) =~= dv.push(tok_fold(s@, sep).1));
        }
    }
    done
}

/// Strict lexicographic order: below and different.
pub open spec fn lex_lt(a: Seq<u8>, b: Seq<u8>) -> bool {
    lex_le(a, b) && a != b
}

/// Strictly sorted: every earlier entry is strictly below every later one;
/// in particular all entries are distinct.
pub open spec fn sorted_strict(s: Seq<Seq<u8>>) -> bool {
    forall|i: int, j: int| 0 <= i < j < s.len() ==> lex_lt(#[trigger] s[i], #[trigger] s[j])
}

/// Inserts a name into a strictly sorted list, keeping it strictly sorted;
/// a name already present is dropped.
pub fn insert_sorted_unique(out: &mut Vec<Vec<u8>>, item: &Vec<u8>)
    requires
        sorted_strict(byte_views(old(out)@)),
    ensures
        sorted_strict(byte_views(final(out)@)),
        forall|x: Seq<u8>|
            byte_views(final(out)@).contains(x) <==> (byte_views(old(out)@).contains(x) || x
                == item@),
{
    let ghost ov = byte_views(out@);
    let mut i: usize = 0;
    let mut stop = false;
    while i < out.len() && !stop
        invariant
            i <= out.len(),
            out@ == old(out)@,
            ov == byte_views(out@),
            forall|j: int| 0 <= j < i ==> lex_lt(#[trigger] ov[j], item@),
            stop ==> i < out.len() && !lex_lt(ov[i as int], item@),
        decreases out.len() - i + (if stop {
            0int
        } else {
            1int
        }),
    {
        assert(ov[i as int] == out@[i as int]@);
        if bytes_le(&out[i], item) && !bytes_eq_slice(&out[i], item.as_slice()) {
            i += 1;
        } else {
            stop = true;
        }
    }
    if i < out.len() {
        assert(ov[i as int] == out@[i as int]@);
        if bytes_eq_slice(&out[i], item.as_slice()) {
            proof {
                assert(ov.contains(ov[i as int]));
                assert forall|x: Seq<u8>| ov.contains(x) || x == item@ implies ov.contains(x) by {
                    if x == item@ {
                        assert(ov[i as int] == item@);
                    }
                }
            }
            return ;
        }
        proof {
            crate::bytes::lemma_lex_le_total(ov[i as int], item@);
        }
        assert(lex_lt(item@, ov[i as int]));
    }
    out.insert(i, clone_bytes(item));
    proof {
        let nv = byte_views(out@);
        assert(nv =~= ov.insert(i as int, item@));
        assert(nv.len() == ov.len() + 1);
        assert forall|a: int, b: int| 0 <= a < b < nv.len() implies lex_lt(nv[a], nv[b]) by {
            if a < i && b < i {
                assert(nv[a] == ov[a] && nv[b] == ov[b]);
            } else if a < i && b == i {
                assert(nv[a] == ov[a] && nv[b] == item@);
            } else if a < i && b > i {
                assert(nv[a] == ov[a] && nv[b] == ov[b - 1]);
            } else if a == i && b > i {
                assert(nv[a] == item@ && nv[b] == ov[b - 1]);
                if b - 1 > i {
                    assert(lex_lt(ov[i as int], ov[b - 1]));
                    crate::bytes::lemma_lex_le_transitive(item@, ov[i as int], ov[b - 1]);
                    if item@ == ov[b - 1] {
                        crate::bytes::lemma_lex_le_antisymmetric(item@, ov[i as int]);
                    }
                }
            } else {
                assert(nv[a] == ov[a - 1] && nv[b] == ov[b - 1]);
            }
        }
        assert forall|x: Seq<u8>| nv.contains(x) implies (ov.contains(x) || x == item@) by {
            let k = choose|k: int| 0 <= k < nv.len() && nv[k] == x;
            if k < i {
                assert(ov[k] == x);
            } else if k > i {
                assert(ov[k - 1] == x);
            }
        }
        assert forall|x: Seq<u8>| ov.contains(x) || x == item@ implies nv.contains(x) by {
            if x == item@ {
                assert(nv[i as int] == x);
            } else {
                let k = choose|k: int| 0 <= k < ov.len() && ov[k] == x;
                if k < i {
                    assert(nv[k] == x);
                } else {
                    assert(nv[k + 1] == x);
                }
            }
        }
    }
}

/// The dependency names a recipe's evaluator printed: one name per line,
/// sorted and deduplicated.
pub fn get_deps_file(output: &Vec<u8>) -> (r: Vec<Vec<u8>>)
    ensures
        sorted_strict(byte_views(r@)),
        forall|x: Seq<u8>|
            byte_views(r@).contains(x) <==> tokens_of(output@, 10).contains(x),
{
    let toks = split_tokens(output, 10);
    let mut r: Vec<Vec<u8>> = Vec::new();
    let ghost tv = byte_views(toks@);
    let mut i: usize = 0;
    proof {
        assert(byte_views(r@) =~= Seq::<Seq<u8>>::empty());
    }
    while i < toks.len()
        invariant
            i <= toks.len(),
            tv == byte_views(toks@),
            sorted_strict(byte_views(r@)),
            forall|x: Seq<u8>|
                byte_views(r@).contains(x) <==> tv.subrange(0, i as int).contains(x),
        decreases toks.len() - i,
    {
        assert(tv[i as int] == toks@[i as int]@);
        insert_sorted_unique(&mut r, &toks[i]);
        proof {
            let prev = tv.subrange(0, i as int);
            let now = tv.subrange(0, i + 1 as int);
            assert(now =~= prev.push(tv[i as int]));
            assert forall|x: Seq<u8>| now.contains(x) implies (prev.contains(x) || x
                == tv[i as int]) by {
                let k = choose|k: int| 0 <= k < now.len() && now[k] == x;
                if k < prev.len() {
                    assert(prev[k] == x);
                }
            }
            assert forall|x: Seq<u8>| prev.contains(x) || x == tv[i as int] implies now.contains(
                x,
            ) by {
                if x == tv[i as int] {
                    assert(now[now.len() - 1] == x);
                } else {
                    let k = choose|k: int| 0 <= k < prev.len() && prev[k] == x;
                    assert(now[k] == x);
                }
            }
        }
        i += 1;
    }
    proof {
        assert(tv.subrange(0, toks@.len() as int) =~= tv);
    }
    r
}

/// The dependency-set digest: the hash of the package manager's verbose info
/// output over the resolved names, a proxy for their concrete versions.
pub fn dep_hash(info_output: &Vec<u8>) -> (r: u64)
    ensures
        r == xxh3_of(info_output@),
{
    xxh3_64(info_output)
}

} // verus!
