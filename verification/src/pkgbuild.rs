//! The recipe model: one buildable package, enriched across pipeline stages
//! with its commit, version, dependency hash and derived identity. The
//! identity string `name-commit-dephash[-pkgver]` keys the published
//! artifacts, so each of its inputs pins it.
use vstd::prelude::*;
use vstd::string::StringSliceAdditionalSpecFns;

use crate::bytes::{append_bytes, bytes_eq_slice, push_byte, str_bytes};
use crate::checksum::{xxh3_64, xxh3_of};
use crate::hexfmt::{bytes_to_hex, hex_of_bytes, hex16_of_u64, u64_to_hex16};
use crate::source::{Source, SourceV, source_views, clone_bytes};

verus! {

/// Spec-level version of a recipe's package version.
pub ghost enum PkgverV {
    /// The version is static in the recipe.
    Plain,
    /// The version is computed by the recipe's version function.
    Func { pkgver: Seq<u8> },
}

/// A recipe's package version: static, or computed by a function the recipe
/// defines.
pub enum Pkgver {
    Plain,
    Func { pkgver: Vec<u8> },
}

impl View for Pkgver {
    type V = PkgverV;

    open spec fn view(&self) -> PkgverV {
        match self {
            Pkgver::Plain => PkgverV::Plain,
            Pkgver::Func { pkgver } => PkgverV::Func { pkgver: pkgver@ },
        }
    }
}

/// Spec-level value of a recipe.
pub ghost struct PkgbuildV {
    pub name: Seq<u8>,
    pub url: Seq<u8>,
    pub build: Seq<u8>,
    pub git: Seq<u8>,
    pub pkgid: Seq<u8>,
    pub pkgdir: Seq<u8>,
    pub commit: Seq<u8>,
    pub dephash: u64,
    pub pkgver: PkgverV,
    pub extracted: bool,
    pub sources: Seq<SourceV>,
}

/// One buildable recipe and its pipeline state: paths under the working
/// directory, the resolved commit, the dependency hash, the derived
/// identity, and whether its sources stand extracted in the build tree.
pub struct Pkgbuild {
    pub name: Vec<u8>,
    pub url: Vec<u8>,
    pub build: Vec<u8>,
    pub git: Vec<u8>,
    pub pkgid: Vec<u8>,
    pub pkgdir: Vec<u8>,
    pub commit: Vec<u8>,
    pub dephash: u64,
    pub pkgver: Pkgver,
    pub extracted: bool,
    pub sources: Vec<Source>,
}

impl View for Pkgbuild {
    type V = PkgbuildV;

    open spec fn view(&self) -> PkgbuildV {
        PkgbuildV {
            name: self.name@,
            url: self.url@,
            build: self.build@,
            git: self.git@,
            pkgid: self.pkgid@,
            pkgdir: self.pkgdir@,
            commit: self.commit@,
            dephash: self.dephash,
            pkgver: self.pkgver@,
            extracted: self.extracted,
            sources: source_views(self.sources@),
        }
    }
}

/// A path under a parent directory: `<parent>/<name>`.
pub open spec fn joined_path(parent: Seq<u8>, name: Seq<u8>) -> Seq<u8> {
    parent + seq![47u8] + name
}

/// Joins a directory and an entry name.
pub fn join_path(parent: &Vec<u8>, name: &Vec<u8>) -> (r: Vec<u8>)
    ensures
        r@ == joined_path(parent@, name@),
{
    let mut r = clone_bytes(parent);
    push_byte(&mut r, 47);
    append_bytes(&mut r, name);
    r
}

impl Pkgbuild {
    /// A fresh recipe known only by name and URL, its build and mirror
    /// paths under the given parents.
    pub fn init_light(
        name: &Vec<u8>,
        url: &Vec<u8>,
        build_parent: &Vec<u8>,
        git_parent: &Vec<u8>,
    ) -> (r: Pkgbuild)
        ensures
            r@.name == name@,
            r@.url == url@,
            r@.build == joined_path(build_parent@, name@),
            r@.git == joined_path(git_parent@, name@),
            r@.pkgid == Seq::<u8>::empty(),
            r@.pkgdir == "pkgs".spec_bytes(),
            r@.commit == Seq::<u8>::empty(),
            r@.dephash == 0,
            r@.pkgver is Plain,
            !r@.extracted,
            r@.sources == Seq::<SourceV>::empty(),
    {
        let r = Pkgbuild {
            name: clone_bytes(name),
            url: clone_bytes(url),
            build: join_path(build_parent, name),
            git: join_path(git_parent, name),
            pkgid: Vec::new(),
            pkgdir: str_bytes("pkgs"),
            commit: Vec::new(),
            dephash: 0,
            pkgver: Pkgver::Plain,
            extracted: false,
            sources: Vec::new(),
        };
        proof {
            assert(source_views(r.sources@) =~= Seq::<SourceV>::empty());
        }
        r
    }

    /// A fresh recipe under the standard parents: builds scratch under
    /// `build`, its own bare mirror under `sources/PKGBUILD`.
    pub fn init(name: &Vec<u8>, url: &Vec<u8>) -> (r: Pkgbuild)
        ensures
            r@.name == name@,
            r@.url == url@,
            r@.build == joined_path("build".spec_bytes(), name@),
            r@.git == joined_path("sources/PKGBUILD".spec_bytes(), name@),
            r@.pkgid == Seq::<u8>::empty(),
            r@.pkgdir == "pkgs".spec_bytes(),
            r@.commit == Seq::<u8>::empty(),
            r@.dephash == 0,
            r@.pkgver is Plain,
            !r@.extracted,
            r@.sources == Seq::<SourceV>::empty(),
    {
        let build_parent = str_bytes("build");
        let git_parent = str_bytes("sources/PKGBUILD");
        Self::init_light(name, url, &build_parent, &git_parent)
    }

    /// The recipe's upstream URL.
    pub fn url(&self) -> (r: &Vec<u8>)
        ensures
            r@ == self@.url,
    {
        &self.url
    }

    /// The 64-bit hash of the recipe's URL.
    pub fn hash_url(&self) -> (r: u64)
        ensures
            r == xxh3_of(self@.url),
    {
        xxh3_64(&self.url)
    }

    /// The path of the recipe's bare mirror.
    pub fn path(&self) -> (r: &Vec<u8>)
        ensures
            r@ == self@.git,
    {
        &self.git
    }

    /// Takes over the commit a health probe of the recipe's mirror found:
    /// the mirror is healthy exactly when it has the expected branch head
    /// and a readable recipe blob there, and then hands that commit here.
    pub fn healthy_set_commit(&mut self, probe: Option<Vec<u8>>) -> (r: bool)
        ensures
            r == probe is Some,
            (match probe {
                Option::Some(c) => final(self)@ == (PkgbuildV { commit: c@, ..old(self)@ }),
                Option::None => final(self)@ == old(self)@,
            }),
    {
        match probe {
            Option::Some(c) => {
                self.commit = c;
                true
            },
            Option::None => false,
        }
    }

    /// Whether the recipe's evaluator reported a version function: its
    /// output is exactly `function` and a newline.
    pub fn has_pkgver_func(output: &Vec<u8>) -> (r: bool)
        ensures
            r == (output@ == "function\n".spec_bytes()),
    {
        bytes_eq_slice(output, "function\n".as_bytes())
    }

    /// Copies a recipe, so that a build of it can run on its own thread.
    pub fn dup(&self) -> (r: Pkgbuild)
        ensures
            r@ == self@,
    {
        let mut sources: Vec<Source> = Vec::new();
        let mut i: usize = 0;
        proof {
            assert(source_views(sources@) =~= source_views(self.sources@).subrange(0, 0));
        }
        while i < self.sources.len()
            invariant
                i <= self.sources@.len(),
                source_views(sources@) == source_views(self.sources@).subrange(0, i as int),
            decreases self.sources@.len() - i,
        {
            assert(source_views(self.sources@)[i as int] == self.sources@[i as int]@);
            let ghost sv = source_views(sources@);
            sources.push(self.sources[i].dup());
            proof {
                assert(source_views(sources@) =~= sv.push(self.sources@[i as int]@));
                assert(source_views(sources@) =~= source_views(self.sources@).subrange(
                    0,
                    i + 1 as int,
                ));
            }
            i += 1;
        }
        proof {
            assert(source_views(self.sources@).subrange(0, self.sources@.len() as int)
                =~= source_views(self.sources@));
        }
        Pkgbuild {
            name: clone_bytes(&self.name),
            url: clone_bytes(&self.url),
            build: clone_bytes(&self.build),
            git: clone_bytes(&self.git),
            pkgid: clone_bytes(&self.pkgid),
            pkgdir: clone_bytes(&self.pkgdir),
            commit: clone_bytes(&self.commit),
            dephash: self.dephash,
            pkgver: match &self.pkgver {
                Pkgver::Plain => Pkgver::Plain,
                Pkgver::Func { pkgver } => Pkgver::Func { pkgver: clone_bytes(pkgver) },
            },
            extracted: self.extracted,
            sources,
        }
    }

    /// Takes over the version the recipe's version function printed,
    /// without surrounding whitespace; the throwaway extraction it ran in
    /// leaves the sources standing extracted.
    pub fn fill_pkgver(&mut self, output: &Vec<u8>)
        ensures
            final(self)@ == (PkgbuildV {
                pkgver: PkgverV::Func { pkgver: crate::bytes::trimmed(output@) },
                extracted: true,
                ..old(self)@
            }),
    {
        self.pkgver = Pkgver::Func { pkgver: crate::bytes::trim_ascii(output) };
        self.extracted = true;
    }
}

/// The derived identity of a recipe: its name, the hex of its commit, the
/// sixteen hex digits of its dependency hash, and the computed version where
/// one exists, joined by dashes.
pub open spec fn pkgid_of(name: Seq<u8>, commit: Seq<u8>, dephash: u64, pkgver: PkgverV) -> Seq<
    u8,
> {
    name + seq![45u8] + hex_of_bytes(commit) + seq![45u8] + hex16_of_u64(dephash) + (match pkgver {
        PkgverV::Plain => Seq::<u8>::empty(),
        PkgverV::Func { pkgver: v } => seq![45u8] + v,
    })
}

/// A recipe fresh from the configuration: known by name and URL only, its
/// paths under the standard parents.
pub open spec fn fresh_recipe(name: Seq<u8>, url: Seq<u8>) -> PkgbuildV {
    PkgbuildV {
        name: name,
        url: url,
        build: joined_path("build".spec_bytes(), name),
        git: joined_path("sources/PKGBUILD".spec_bytes(), name),
        pkgid: Seq::empty(),
        pkgdir: "pkgs".spec_bytes(),
        commit: Seq::empty(),
        dephash: 0,
        pkgver: PkgverV::Plain,
        extracted: false,
        sources: Seq::empty(),
    }
}

/// The names of a recipe list.
pub open spec fn recipe_names(ps: Seq<Pkgbuild>) -> Seq<Seq<u8>> {
    ps.map_values(|p: Pkgbuild| p@.name)
}

/// The recipe is fresh from one of the configuration entries.
pub open spec fn fresh_from_some(p: PkgbuildV, entries: Seq<(Vec<u8>, Vec<u8>)>) -> bool {
    exists|j: int| 0 <= j < entries.len() && p == fresh_recipe((#[trigger] entries[j]).0@, entries[j].1@)
}

/// Builds the recipe list from the parsed configuration entries, sorted by
/// name; a repeated name keeps its first entry. Every entry's name is in
/// the list, and every recipe in the list is fresh from some entry.
pub fn from_yaml_config(entries: &Vec<(Vec<u8>, Vec<u8>)>) -> (r: Vec<Pkgbuild>)
    ensures
        crate::depends::sorted_strict(recipe_names(r@)),
        forall|i: int| 0 <= i < r@.len() ==> fresh_from_some(#[trigger] r@[i]@, entries@),
        forall|j: int|
            0 <= j < entries@.len() ==> recipe_names(r@).contains(#[trigger] entries@[j].0@),
{
    let mut r: Vec<Pkgbuild> = Vec::new();
    let mut i: usize = 0;
    proof {
        assert(recipe_names(r@) =~= Seq::<Seq<u8>>::empty());
    }
    while i < entries.len()
        invariant
            i <= entries@.len(),
            crate::depends::sorted_strict(recipe_names(r@)),
            forall|k: int| 0 <= k < r@.len() ==> fresh_from_some(#[trigger] r@[k]@, entries@),
            forall|j: int|
                0 <= j < i ==> recipe_names(r@).contains(#[trigger] entries@[j].0@),
        decreases entries.len() - i,
    {
        let name = &entries[i].0;
        let url = &entries[i].1;
        let ghost nv = recipe_names(r@);
        let mut k: usize = 0;
        let mut stop = false;
        while k < r.len() && !stop
            invariant
                k <= r@.len(),
                nv == recipe_names(r@),
                name@ == entries@[i as int].0@,
                forall|m: int| 0 <= m < k ==> crate::depends::lex_lt(#[trigger] nv[m], name@),
                stop ==> k < r@.len() && !crate::depends::lex_lt(nv[k as int], name@),
            decreases r.len() - k + (if stop {
                0int
            } else {
                1int
            }),
        {
            assert(nv[k as int] == r@[k as int]@.name);
            if crate::bytes::bytes_le(&r[k].name, name) && !bytes_eq_slice(
                &r[k].name,
                name.as_slice(),
            ) {
                k += 1;
            } else {
                stop = true;
            }
        }
        let mut duplicate = false;
        if k < r.len() {
            assert(nv[k as int] == r@[k as int]@.name);
            if bytes_eq_slice(&r[k].name, name.as_slice()) {
                duplicate = true;
                proof {
                    assert(nv.contains(nv[k as int]));
                }
            }
        }
        if !duplicate {
            proof {
                if k < r@.len() {
                    crate::bytes::lemma_lex_le_total(nv[k as int], name@);
                    assert(crate::depends::lex_lt(name@, nv[k as int]));
                }
            }
            let fresh = Pkgbuild::init(name, url);
            let ghost pre = r@;
            r.insert(k, fresh);
            proof {
                let nv2 = recipe_names(r@);
                assert(nv2 =~= nv.insert(k as int, name@));
                assert forall|a: int, b: int|
                    0 <= a < b < nv2.len() implies crate::depends::lex_lt(nv2[a], nv2[b]) by {
                    if a < k && b < k {
                        assert(nv2[a] == nv[a] && nv2[b] == nv[b]);
                    } else if a < k && b == k {
                        assert(nv2[a] == nv[a] && nv2[b] == name@);
                    } else if a < k && b > k {
                        assert(nv2[a] == nv[a] && nv2[b] == nv[b - 1]);
                    } else if a == k && b > k {
                        assert(nv2[a] == name@ && nv2[b] == nv[b - 1]);
                        if b - 1 > k {
                            assert(crate::depends::lex_lt(nv[k as int], nv[b - 1]));
                            crate::bytes::lemma_lex_le_transitive(name@, nv[k as int], nv[b - 1]);
                            if name@ == nv[b - 1] {
                                crate::bytes::lemma_lex_le_antisymmetric(name@, nv[k as int]);
                            }
                        }
                    } else {
                        assert(nv2[a] == nv[a - 1] && nv2[b] == nv[b - 1]);
                    }
                }
                assert(r@[k as int]@ == fresh_recipe(entries@[i as int].0@, entries@[i as int].1@));
                assert forall|m: int| 0 <= m < r@.len() implies fresh_from_some(
                    #[trigger] r@[m]@,
                    entries@,
                ) by {
                    if m < k {
                        assert(r@[m] == pre[m]);
                    } else if m > k {
                        assert(r@[m] == pre[m - 1]);
                    } else {
                        assert(r@[m]@ == fresh_recipe(
                            (entries@[i as int]).0@,
                            entries@[i as int].1@,
                        ));
                        assert(fresh_from_some(r@[m]@, entries@));
                    }
                }
            }
        }
        proof {
            let nvn = recipe_names(r@);
            assert forall|j: int| 0 <= j < i + 1 implies nvn.contains(
                #[trigger] entries@[j].0@,
            ) by {
                if j < i {
                    assert(nv.contains(entries@[j].0@));
                    let w = choose|w: int| 0 <= w < nv.len() && nv[w] == entries@[j].0@;
                    if duplicate {
                        assert(nvn[w] == entries@[j].0@);
                    } else {
                        if w < k {
                            assert(nvn[w] == nv[w]);
                        } else {
                            assert(nvn[w + 1] == nv[w]);
                        }
                    }
                } else {
                    if duplicate {
                        assert(nvn[k as int] == name@);
                    } else {
                        assert(nvn[k as int] == name@);
                    }
                }
            }
        }
        i += 1;
    }
    r
}

/// The version suffix of an identity: empty for a static version, a dash
/// and the computed value otherwise.
pub open spec fn pkgver_suffix(p: PkgverV) -> Seq<u8> {
    match p {
        PkgverV::Plain => Seq::<u8>::empty(),
        PkgverV::Func { pkgver: v } => seq![45u8] + v,
    }
}

/// Law: the identity is a function of name, commit, dependency hash and
/// version — identical inputs always derive the identical string — and each
/// input pins it: two identities can only agree when, holding the other
/// three inputs fixed, the varied input agrees too.
pub proof fn lemma_pkgid_field_injective(
    n1: Seq<u8>,
    c1: Seq<u8>,
    d1: u64,
    p1: PkgverV,
    n2: Seq<u8>,
    c2: Seq<u8>,
    d2: u64,
    p2: PkgverV,
)
    requires
        c1.len() == c2.len(),
        pkgid_of(n1, c1, d1, p1) == pkgid_of(n2, c2, d2, p2),
    ensures
        c1 == c2 && d1 == d2 && p1 == p2 ==> n1 == n2,
        n1 == n2 ==> c1 == c2 && d1 == d2 && p1 == p2,
{
    let dash = seq![45u8];
    let h1 = hex_of_bytes(c1);
    let h2 = hex_of_bytes(c2);
    let g1 = hex16_of_u64(d1);
    let g2 = hex16_of_u64(d2);
    let s1 = pkgver_suffix(p1);
    let s2 = pkgver_suffix(p2);
    crate::hexfmt::lemma_hex_of_bytes_len(c1);
    crate::hexfmt::lemma_hex_of_bytes_len(c2);
    let r1 = dash + (h1 + (dash + (g1 + s1)));
    let r2 = dash + (h2 + (dash + (g2 + s2)));
    assert(pkgid_of(n1, c1, d1, p1) =~= n1 + r1);
    assert(pkgid_of(n2, c2, d2, p2) =~= n2 + r2);
    if c1 == c2 && d1 == d2 && p1 == p2 {
        assert(r1 == r2);
        assert(n1.len() == n2.len());
        crate::bytes::lemma_concat_split(n1, r1, n2, r2);
    }
    if n1 == n2 {
        crate::bytes::lemma_concat_split(n1, r1, n2, r2);
        crate::bytes::lemma_concat_split(dash, h1 + (dash + (g1 + s1)), dash, h2 + (dash + (g2
            + s2)));
        crate::bytes::lemma_concat_split(h1, dash + (g1 + s1), h2, dash + (g2 + s2));
        crate::hexfmt::lemma_hex_of_bytes_injective(c1, c2);
        crate::bytes::lemma_concat_split(dash, g1 + s1, dash, g2 + s2);
        crate::bytes::lemma_concat_split(g1, s1, g2, s2);
        crate::hexfmt::lemma_hex16_injective(d1, d2);
        match (p1, p2) {
            (PkgverV::Plain, PkgverV::Plain) => {
            },
            (PkgverV::Func { pkgver: v1 }, PkgverV::Func { pkgver: v2 }) => {
                crate::bytes::lemma_concat_split(dash, v1, dash, v2);
            },
            (PkgverV::Plain, PkgverV::Func { pkgver: v2 }) => {
                assert(s1.len() == 0 && s2.len() >= 1);
            },
            (PkgverV::Func { pkgver: v1 }, PkgverV::Plain) => {
                assert(s2.len() == 0 && s1.len() >= 1);
            },
        }
    }
}

impl Pkgbuild {
    /// Derives the identity and with it the artifact directory
    /// `pkgs/<identity>`.
    pub fn fill_id_dir(&mut self)
        ensures
            final(self)@ == (PkgbuildV {
                pkgid: pkgid_of(
                    old(self)@.name,
                    old(self)@.commit,
                    old(self)@.dephash,
                    old(self)@.pkgver,
                ),
                pkgdir: joined_path(
                    old(self)@.pkgdir,
                    pkgid_of(
                        old(self)@.name,
                        old(self)@.commit,
                        old(self)@.dephash,
                        old(self)@.pkgver,
                    ),
                ),
                ..old(self)@
            }),
    {
        let mut pkgid = clone_bytes(&self.name);
        push_byte(&mut pkgid, 45);
        let ch = bytes_to_hex(&self.commit);
        append_bytes(&mut pkgid, &ch);
        push_byte(&mut pkgid, 45);
        let dh = u64_to_hex16(self.dephash);
        append_bytes(&mut pkgid, &dh);
        match &self.pkgver {
            Pkgver::Plain => {},
            Pkgver::Func { pkgver } => {
                push_byte(&mut pkgid, 45);
                append_bytes(&mut pkgid, pkgver);
            },
        }
        assert(pkgid@ =~= pkgid_of(self@.name, self@.commit, self@.dephash, self@.pkgver));
        self.pkgdir = join_path(&self.pkgdir, &pkgid);
        self.pkgid = pkgid;
    }
}

} // verus!
