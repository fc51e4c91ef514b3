//! What this system tells its external collaborators to do: the exact
//! argument lists of the package manager, the build frontend and the
//! transfer tools, and the fixed cache paths they operate on. The processes
//! are spawned outside; the words handed to them are verified here.
use vstd::prelude::*;
use vstd::string::StringSliceAdditionalSpecFns;

use crate::bytes::{append_bytes, byte_views, str_bytes};
use crate::checksum::{xxh3_64, xxh3_of};
use crate::hexfmt::{hex16_of_u64, u64_to_hex16};
use crate::integ::{IntegFile, integ_path, integ_files_of};
use crate::pkgbuild::{join_path, joined_path};
use crate::source::{Protocol, Source, SourceV, VcsProtocol, clone_bytes, has_digest,
    source_views};

verus! {

/// The decimal digits of a value, most significant first.
pub open spec fn dec_of(v: u64) -> Seq<u8>
    decreases v,
{
    if v < 10 {
        seq![(48 + v) as u8]
    } else {
        dec_of(v / 10).push((48 + v % 10) as u8)
    }
}

/// Formats a value in decimal.
pub fn u64_to_dec(v: u64) -> (r: Vec<u8>)
    ensures
        r@ == dec_of(v),
    decreases v,
{
    if v < 10 {
        let mut r: Vec<u8> = Vec::new();
        r.push(48 + (v as u8));
        assert(r@ =~= dec_of(v));
        r
    } else {
        let mut r = u64_to_dec(v / 10);
        r.push(48 + ((v % 10) as u8));
        r
    }
}

/// The package manager's argument list for installing into a root: a fresh
/// sync for the base root, plain installs elsewhere, always confined by
/// `--root` and unattended; an empty package list runs nothing.
pub open spec fn install_pkgs_args_of(base: bool, root: Seq<u8>, pkgs: Seq<Seq<u8>>) -> Option<
    Seq<Seq<u8>>,
> {
    if pkgs.len() == 0 {
        Option::None
    } else {
        Option::Some(
            seq![
                if base {
                    "-Sy".spec_bytes()
                } else {
                    "-S".spec_bytes()
                },
                "--root".spec_bytes(),
                root,
                "--noconfirm".spec_bytes(),
            ] + (if base {
                Seq::<Seq<u8>>::empty()
            } else {
                seq!["--needed".spec_bytes()]
            }) + pkgs,
        )
    }
}

/// Builds the package manager's install arguments; None when there is
/// nothing to install and no process should run.
pub fn install_pkgs_args(base: bool, root: &Vec<u8>, pkgs: &Vec<Vec<u8>>) -> (r: Option<
    Vec<Vec<u8>>,
>)
    ensures
        (match r {
            Option::Some(args) => install_pkgs_args_of(base, root@, byte_views(pkgs@))
                == Option::Some(byte_views(args@)),
            Option::None => install_pkgs_args_of(base, root@, byte_views(pkgs@)) is None,
        }),
{
    if pkgs.len() == 0 {
        return Option::None;
    }
    let mut args: Vec<Vec<u8>> = Vec::new();
    if base {
        args.push(str_bytes("-Sy"));
    } else {
        args.push(str_bytes("-S"));
    }
    args.push(str_bytes("--root"));
    args.push(clone_bytes(root));
    args.push(str_bytes("--noconfirm"));
    if !base {
        args.push(str_bytes("--needed"));
    }
    let ghost head = byte_views(args@);
    let mut i: usize = 0;
    while i < pkgs.len()
        invariant
            i <= pkgs@.len(),
            byte_views(args@) == head + byte_views(pkgs@).subrange(0, i as int),
        decreases pkgs.len() - i,
    {
        assert(byte_views(pkgs@)[i as int] == pkgs@[i as int]@);
        let ghost av = byte_views(args@);
        args.push(clone_bytes(&pkgs[i]));
        proof {
            assert(byte_views(args@) =~= av.push(pkgs@[i as int]@));
            assert(byte_views(args@) =~= head + byte_views(pkgs@).subrange(0, i + 1 as int));
        }
        i += 1;
    }
    proof {
        assert(byte_views(pkgs@).subrange(0, pkgs@.len() as int) =~= byte_views(pkgs@));
        assert(byte_views(args@) =~= head + byte_views(pkgs@));
        assert(install_pkgs_args_of(base, root@, byte_views(pkgs@)) =~= Option::Some(
            byte_views(args@),
        ));
    }
    Option::Some(args)
}

/// The build frontend's fixed flags: this system already fetched sources,
/// resolved dependencies and extracted, so the frontend skips all three.
pub open spec fn makepkg_flags() -> Seq<Seq<u8>> {
    seq![
        "--holdver".spec_bytes(),
        "--nodeps".spec_bytes(),
        "--noextract".spec_bytes(),
        "--ignorearch".spec_bytes(),
    ]
}

/// The shell text run inside the fresh network namespace: loopback up, then
/// the build frontend under the builder's own identity mapping.
pub open spec fn nonet_script_of(uid: u64, gid: u64) -> Seq<u8> {
    "ip link set dev lo up; unshare --map-users=".spec_bytes() + dec_of(uid)
        + ":0:1 --map-groups=".spec_bytes() + dec_of(gid)
        + ":0:1 -- makepkg --holdver --nodeps --noextract --ignorearch".spec_bytes()
}

/// The build command: the frontend's flags directly, or — when network
/// isolation is asked for — an unshare of the network namespace running the
/// same frontend with only loopback up.
pub open spec fn build_command_of(nonet: bool, uid: u64, gid: u64) -> (Seq<u8>, Seq<Seq<u8>>) {
    if nonet {
        (
            "/usr/bin/unshare".spec_bytes(),
            seq![
                "--map-root-user".spec_bytes(),
                "--net".spec_bytes(),
                "--".spec_bytes(),
                "sh".spec_bytes(),
                "-c".spec_bytes(),
                nonet_script_of(uid, gid),
            ],
        )
    } else {
        ("/bin/bash".spec_bytes(), seq!["/usr/bin/makepkg".spec_bytes()] + makepkg_flags())
    }
}

/// Builds the program and argument list of one package's build command.
pub fn get_build_command(nonet: bool, uid: u64, gid: u64) -> (r: (Vec<u8>, Vec<Vec<u8>>))
    ensures
        r.0@ == build_command_of(nonet, uid, gid).0,
        byte_views(r.1@) == build_command_of(nonet, uid, gid).1,
{
    if nonet {
        let mut script = str_bytes("ip link set dev lo up; unshare --map-users=");
        let uv = u64_to_dec(uid);
        append_bytes(&mut script, &uv);
        let mid = str_bytes(":0:1 --map-groups=");
        append_bytes(&mut script, &mid);
        let gv = u64_to_dec(gid);
        append_bytes(&mut script, &gv);
        let tail = str_bytes(":0:1 -- makepkg --holdver --nodeps --noextract --ignorearch");
        append_bytes(&mut script, &tail);
        assert(script@ =~= nonet_script_of(uid, gid));
        let mut args: Vec<Vec<u8>> = Vec::new();
        args.push(str_bytes("--map-root-user"));
        args.push(str_bytes("--net"));
        args.push(str_bytes("--"));
        args.push(str_bytes("sh"));
        args.push(str_bytes("-c"));
        args.push(script);
        assert(byte_views(args@) =~= build_command_of(nonet, uid, gid).1);
        (str_bytes("/usr/bin/unshare"), args)
    } else {
        let mut args: Vec<Vec<u8>> = Vec::new();
        args.push(str_bytes("/usr/bin/makepkg"));
        args.push(str_bytes("--holdver"));
        args.push(str_bytes("--nodeps"));
        args.push(str_bytes("--noextract"));
        args.push(str_bytes("--ignorearch"));
        assert(byte_views(args@) =~= build_command_of(nonet, uid, gid).1);
        (str_bytes("/bin/bash"), args)
    }
}

/// The external transfer client's arguments for an FTP fetch.
pub open spec fn ftp_args_of(url: Seq<u8>, path: Seq<u8>) -> Seq<Seq<u8>> {
    seq![
        "-qgfC".spec_bytes(),
        "-".spec_bytes(),
        "--ftp-pasv".spec_bytes(),
        "--retry".spec_bytes(),
        "3".spec_bytes(),
        "--retry-delay".spec_bytes(),
        "3".spec_bytes(),
        "-o".spec_bytes(),
        path,
        url,
    ]
}

/// Builds the FTP fetch arguments.
pub fn ftp_args(url: &Vec<u8>, path: &Vec<u8>) -> (r: Vec<Vec<u8>>)
    ensures
        byte_views(r@) == ftp_args_of(url@, path@),
{
    let mut r: Vec<Vec<u8>> = Vec::new();
    r.push(str_bytes("-qgfC"));
    r.push(str_bytes("-"));
    r.push(str_bytes("--ftp-pasv"));
    r.push(str_bytes("--retry"));
    r.push(str_bytes("3"));
    r.push(str_bytes("--retry-delay"));
    r.push(str_bytes("3"));
    r.push(str_bytes("-o"));
    r.push(clone_bytes(path));
    r.push(clone_bytes(url));
    assert(byte_views(r@) =~= ftp_args_of(url@, path@));
    r
}

/// The external transfer client's arguments for an HTTP fetch.
pub open spec fn http_args_of(url: Seq<u8>, path: Seq<u8>) -> Seq<Seq<u8>> {
    seq![
        "-qgb".spec_bytes(),
        "".spec_bytes(),
        "-fLC".spec_bytes(),
        "-".spec_bytes(),
        "--retry".spec_bytes(),
        "3".spec_bytes(),
        "--retry-delay".spec_bytes(),
        "3".spec_bytes(),
        "-o".spec_bytes(),
        path,
        url,
    ]
}

/// Builds the HTTP fetch arguments; the proxy, where used, goes through the
/// client's environment.
pub fn http_args(url: &Vec<u8>, path: &Vec<u8>) -> (r: Vec<Vec<u8>>)
    ensures
        byte_views(r@) == http_args_of(url@, path@),
{
    let mut r: Vec<Vec<u8>> = Vec::new();
    r.push(str_bytes("-qgb"));
    r.push(str_bytes(""));
    r.push(str_bytes("-fLC"));
    r.push(str_bytes("-"));
    r.push(str_bytes("--retry"));
    r.push(str_bytes("3"));
    r.push(str_bytes("--retry-delay"));
    r.push(str_bytes("3"));
    r.push(str_bytes("-o"));
    r.push(clone_bytes(path));
    r.push(clone_bytes(url));
    assert(byte_views(r@) =~= http_args_of(url@, path@));
    r
}

/// The rsync client's arguments.
pub open spec fn rsync_args_of(url: Seq<u8>, path: Seq<u8>) -> Seq<Seq<u8>> {
    seq!["--no-motd".spec_bytes(), "-z".spec_bytes(), url, path]
}

/// Builds the rsync fetch arguments.
pub fn rsync_args(url: &Vec<u8>, path: &Vec<u8>) -> (r: Vec<Vec<u8>>)
    ensures
        byte_views(r@) == rsync_args_of(url@, path@),
{
    let mut r: Vec<Vec<u8>> = Vec::new();
    r.push(str_bytes("--no-motd"));
    r.push(str_bytes("-z"));
    r.push(clone_bytes(url));
    r.push(clone_bytes(path));
    assert(byte_views(r@) =~= rsync_args_of(url@, path@));
    r
}

/// The scp client's arguments.
pub open spec fn scp_args_of(url: Seq<u8>, path: Seq<u8>) -> Seq<Seq<u8>> {
    seq!["-C".spec_bytes(), url, path]
}

/// Builds the scp fetch arguments.
pub fn scp_args(url: &Vec<u8>, path: &Vec<u8>) -> (r: Vec<Vec<u8>>)
    ensures
        byte_views(r@) == scp_args_of(url@, path@),
{
    let mut r: Vec<Vec<u8>> = Vec::new();
    r.push(str_bytes("-C"));
    r.push(clone_bytes(url));
    r.push(clone_bytes(path));
    assert(byte_views(r@) =~= scp_args_of(url@, path@));
    r
}

/// The local path of a `file://` URL; any other URL is a configuration
/// error for the local protocol.
pub fn file_url_path(url: &Vec<u8>) -> (r: Result<Vec<u8>, ()>)
    ensures
        r is Ok <==> url@.len() >= 7 && url@.subrange(0, 7) == "file://".spec_bytes(),
        r matches Ok(p) ==> p@ == url@.subrange(7, url@.len() as int),
{
    let prefix = str_bytes("file://");
    if url.len() < 7 {
        assert(url@.len() < 7);
        return Err(());
    }
    let head = crate::bytes::sub_bytes(url, 0, 7);
    if !crate::bytes::bytes_eq_slice(&head, prefix.as_slice()) {
        return Err(());
    }
    Ok(crate::bytes::sub_bytes(url, 7, url.len()))
}

/// How many bytes an HTTP download may hand over: what the content-length
/// header said, or four gibibytes when the response carries none.
pub fn download_limit(content_length: Option<u64>) -> (r: u64)
    ensures
        r == (match content_length {
            Option::Some(n) => n,
            Option::None => 0x100000000u64,
        }),
{
    match content_length {
        Option::Some(n) => n,
        Option::None => 0x100000000,
    }
}

/// The bare mirror path of a git source: keyed by the hash of its URL.
pub open spec fn git_mirror_path_of(url: Seq<u8>) -> Seq<u8> {
    "sources/git/".spec_bytes() + hex16_of_u64(xxh3_of(url))
}

/// Builds a git source's mirror path.
pub fn git_mirror_path(url: &Vec<u8>) -> (r: Vec<u8>)
    ensures
        r@ == git_mirror_path_of(url@),
{
    let mut r = str_bytes("sources/git/");
    let h = xxh3_64(url);
    let hv = u64_to_hex16(h);
    append_bytes(&mut r, &hv);
    r
}

/// The temporary output directory of one build: the persistent directory's
/// name with `.temp` appended.
pub open spec fn temp_pkgdir_of(pkgid: Seq<u8>) -> Seq<u8> {
    "pkgs/".spec_bytes() + pkgid + ".temp".spec_bytes()
}

/// Builds the temporary output path of one package identity.
pub fn get_temp_pkgdir(pkgid: &Vec<u8>) -> (r: Vec<u8>)
    ensures
        r@ == temp_pkgdir_of(pkgid@),
{
    let mut r = str_bytes("pkgs/");
    append_bytes(&mut r, pkgid);
    let tail = str_bytes(".temp");
    append_bytes(&mut r, &tail);
    r
}

/// Spec-level value of one symlink to make.
pub ghost struct LinkPairV {
    pub original: Seq<u8>,
    pub link: Seq<u8>,
}

/// One symlink placing a cached artifact into a build tree.
pub struct LinkPair {
    pub original: Vec<u8>,
    pub link: Vec<u8>,
}

impl View for LinkPair {
    type V = LinkPairV;

    open spec fn view(&self) -> LinkPairV {
        LinkPairV { original: self.original@, link: self.link@ }
    }
}

/// The views of a list of symlinks.
pub open spec fn link_views(s: Seq<LinkPair>) -> Seq<LinkPairV> {
    s.map_values(|p: LinkPair| p@)
}

/// The symlinks one source contributes to a build tree, two directory
/// levels below the working directory: a netfile source links its last
/// cache entry, a git source its bare mirror; local sources and unsupported
/// version-control sources link nothing.
pub open spec fn extract_entry(dir: Seq<u8>, s: SourceV) -> Seq<LinkPairV> {
    match s.protocol {
        Protocol::Netfile { protocol: _ } => if has_digest(s) {
            seq![
                LinkPairV {
                    original: "../../".spec_bytes() + integ_path(integ_files_of(s).last()),
                    link: joined_path(dir, s.name),
                },
            ]
        } else {
            Seq::empty()
        },
        Protocol::Vcs { protocol } => if protocol is Git {
            seq![
                LinkPairV {
                    original: "../../".spec_bytes() + git_mirror_path_of(s.url),
                    link: joined_path(dir, s.name),
                },
            ]
        } else {
            Seq::empty()
        },
        Protocol::Local => Seq::empty(),
    }
}

/// The symlinks extracting a recipe's sources into its build tree.
pub open spec fn extract_plan_of(dir: Seq<u8>, ss: Seq<SourceV>) -> Seq<LinkPairV>
    decreases ss.len(),
{
    if ss.len() == 0 {
        Seq::empty()
    } else {
        extract_plan_of(dir, ss.drop_last()) + extract_entry(dir, ss.last())
    }
}

/// Plans the extraction of a recipe's sources: cached files and bare git
/// mirrors are symlinked into the build tree rather than copied.
pub fn extract(dir: &Vec<u8>, sources: &Vec<Source>) -> (r: Vec<LinkPair>)
    ensures
        link_views(r@) == extract_plan_of(dir@, source_views(sources@)),
{
    let ghost all = source_views(sources@);
    let mut r: Vec<LinkPair> = Vec::new();
    let mut i: usize = 0;
    proof {
        assert(all.subrange(0, 0) =~= Seq::<SourceV>::empty());
        assert(link_views(r@) =~= extract_plan_of(dir@, all.subrange(0, 0)));
    }
    while i < sources.len()
        invariant
            i <= sources@.len(),
            all == source_views(sources@),
            link_views(r@) == extract_plan_of(dir@, all.subrange(0, i as int)),
        decreases sources.len() - i,
    {
        let ghost pre = all.subrange(0, i as int);
        let ghost post = all.subrange(0, i + 1 as int);
        proof {
            assert(post.drop_last() =~= pre);
            assert(post.last() == all[i as int]);
            assert(all[i as int] == sources@[i as int]@);
        }
        let source = &sources[i];
        let ghost rv = link_views(r@);
        match source.protocol {
            Protocol::Netfile { protocol: _ } => {
                let files = crate::integ::get_integ_files(source);
                if files.len() > 0 {
                    let fl = files.len();
                    let last = &files[fl - 1];
                    proof {
                        assert(crate::integ::integ_views(files@)[fl - 1] == files@[fl - 1]@);
                        assert(crate::integ::integ_views(files@).last() == integ_files_of(
                            all[i as int],
                        ).last());
                    }
                    let mut original = str_bytes("../../");
                    let p = last.path();
                    append_bytes(&mut original, &p);
                    let pair = LinkPair { original, link: join_path(dir, &source.name) };
                    r.push(pair);
                    proof {
                        assert(crate::source::has_digest(all[i as int]));
                        assert(link_views(r@) =~= rv.push(
                            extract_entry(dir@, all[i as int]).last(),
                        ));
                        assert(link_views(r@) =~= extract_plan_of(dir@, post));
                    }
                } else {
                    proof {
                        assert(!crate::source::has_digest(all[i as int]));
                        assert(link_views(r@) =~= extract_plan_of(dir@, post));
                    }
                }
            },
            Protocol::Vcs { protocol } => {
                if matches!(protocol, VcsProtocol::Git) {
                    let mut original = str_bytes("../../");
                    let mp = git_mirror_path(&source.url);
                    append_bytes(&mut original, &mp);
                    let pair = LinkPair { original, link: join_path(dir, &source.name) };
                    r.push(pair);
                    proof {
                        assert(link_views(r@) =~= rv.push(
                            extract_entry(dir@, all[i as int]).last(),
                        ));
                        assert(link_views(r@) =~= extract_plan_of(dir@, post));
                    }
                } else {
                    proof {
                        assert(link_views(r@) =~= extract_plan_of(dir@, post));
                    }
                }
            },
            Protocol::Local => {
                proof {
                    assert(link_views(r@) =~= extract_plan_of(dir@, post));
                }
            },
        }
        i += 1;
    }
    proof {
        assert(all.subrange(0, sources@.len() as int) =~= all);
    }
    r
}

} // verus!
