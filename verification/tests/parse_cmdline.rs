use repo_builder::checksum::posix_cksum;
use repo_builder::cmdline::{
    extract, file_url_path, ftp_args, get_build_command, get_temp_pkgdir, git_mirror_path,
    http_args, install_pkgs_args, rsync_args, scp_args, u64_to_dec, download_limit,
};
use repo_builder::depends::{dep_hash, get_deps_file, split_tokens};
use repo_builder::hexfmt::{bytes_to_hex, hex_decode, u64_to_hex16};
use repo_builder::parse::{get_sources, parse_u32_dec, split_lines};
use repo_builder::pkgbuild::Pkgbuild;
use repo_builder::source::{protocol_from_string, NetfileProtocol, Protocol, VcsProtocol};

#[test]
fn protocol_keywords_parse() {
    assert_eq!(
        protocol_from_string(&b"https".to_vec()),
        Ok(Protocol::Netfile { protocol: NetfileProtocol::Https })
    );
    assert_eq!(
        protocol_from_string(&b"git".to_vec()),
        Ok(Protocol::Vcs { protocol: VcsProtocol::Git })
    );
    assert_eq!(protocol_from_string(&b"local".to_vec()), Ok(Protocol::Local));
    assert!(protocol_from_string(&b"gopher".to_vec()).is_err());
}

#[test]
fn source_blocks_parse_and_digests_decode() {
    let text = b"[source]\n\
name: tarball\n\
protocol: https\n\
url: https://example.com/t.tar.gz\n\
md5sum: 00112233445566778899aabbccddeeff\n\
[source]\n\
name: mirror\n\
protocol: git\n\
url: https://git.example.com/r.git\n\
sha256sum: 0000000000000000000000000000000000000000000000000000000000000001\n"
        .to_vec();
    let sources = get_sources(&text).unwrap();
    assert_eq!(sources.len(), 2);
    assert_eq!(sources[0].name, b"tarball".to_vec());
    // The digest is the decoded bytes, not the hex text.
    assert_eq!(
        sources[0].md5,
        Some(vec![0x00, 0x11, 0x22, 0x33, 0x44, 0x55, 0x66, 0x77, 0x88, 0x99, 0xaa, 0xbb, 0xcc,
            0xdd, 0xee, 0xff])
    );
    assert_eq!(sources[1].protocol, Protocol::Vcs { protocol: VcsProtocol::Git });
    let mut sha = vec![0u8; 32];
    sha[31] = 1;
    assert_eq!(sources[1].sha256, Some(sha));
}

#[test]
fn digestless_block_is_rejected_silently() {
    let text = b"[source]\nname: nothing\nprotocol: https\nurl: https://x.org/f\n".to_vec();
    let sources = get_sources(&text).unwrap();
    assert_eq!(sources.len(), 0);
}

#[test]
fn incomplete_block_with_digest_is_error() {
    let text = b"[source]\nname: broken\nmd5sum: 00112233445566778899aabbccddeeff\n".to_vec();
    assert!(get_sources(&text).is_err());
}

#[test]
fn unknown_key_is_error() {
    let text = b"[source]\nname: x\nflavour: mint\n".to_vec();
    assert!(get_sources(&text).is_err());
}

#[test]
fn wrong_digest_width_is_error() {
    let text = b"[source]\nname: x\nprotocol: https\nurl: https://x.org/f\nmd5sum: abcd\n"
        .to_vec();
    assert!(get_sources(&text).is_err());
}

#[test]
fn cksum_value_parses_in_range_only() {
    assert_eq!(parse_u32_dec(&b"0".to_vec()), Ok(0));
    assert_eq!(parse_u32_dec(&b"4294967295".to_vec()), Ok(u32::MAX));
    assert!(parse_u32_dec(&b"4294967296".to_vec()).is_err());
    assert!(parse_u32_dec(&b"".to_vec()).is_err());
    assert!(parse_u32_dec(&b"12x".to_vec()).is_err());
}

#[test]
fn lines_split_like_a_text_file() {
    let ls = split_lines(&b"a\r\nb\n\nc".to_vec());
    assert_eq!(ls, vec![b"a".to_vec(), b"b".to_vec(), b"".to_vec(), b"c".to_vec()]);
    let ls2 = split_lines(&b"a\n".to_vec());
    assert_eq!(ls2, vec![b"a".to_vec()]);
}

#[test]
fn hex_round_trips_and_formats() {
    assert_eq!(bytes_to_hex(&vec![0xde, 0xad, 0x01]), b"dead01".to_vec());
    assert_eq!(hex_decode(&b"DEad01".to_vec()), Ok(vec![0xde, 0xad, 0x01]));
    assert!(hex_decode(&b"abc".to_vec()).is_err());
    assert!(hex_decode(&b"zz".to_vec()).is_err());
    assert_eq!(u64_to_hex16(0x0123456789abcdef), b"0123456789abcdef".to_vec());
    assert_eq!(u64_to_hex16(5), b"0000000000000005".to_vec());
    assert_eq!(u64_to_dec(0), b"0".to_vec());
    assert_eq!(u64_to_dec(10067), b"10067".to_vec());
}

#[test]
fn posix_cksum_matches_the_tool() {
    // cksum of empty input, as the POSIX tool prints it.
    assert_eq!(posix_cksum(&vec![]), 4294967295);
    // The length suffix is the minimal little-endian byte string.
    let crc = crc::Crc::<u32>::new(&crc::CRC_32_CKSUM);
    let mut with_suffix = b"hello".to_vec();
    with_suffix.push(5);
    assert_eq!(posix_cksum(&b"hello".to_vec()), crc.checksum(&with_suffix));
}

#[test]
fn dep_names_sort_and_dedup() {
    let out = b"zlib\ngcc\nzlib\n\nmake\n".to_vec();
    let deps = get_deps_file(&out);
    assert_eq!(deps, vec![b"gcc".to_vec(), b"make".to_vec(), b"zlib".to_vec()]);
    assert_eq!(split_tokens(&b"a::b".to_vec(), b':'), vec![b"a".to_vec(), b"b".to_vec()]);
}

#[test]
fn dep_hash_is_the_hash_of_the_info_output() {
    let a = dep_hash(&b"Version : 1".to_vec());
    let b = dep_hash(&b"Version : 2".to_vec());
    assert_ne!(a, b);
    assert_eq!(a, dep_hash(&b"Version : 1".to_vec()));
}

#[test]
fn install_args_match_the_package_manager() {
    let args = install_pkgs_args(
        true,
        &b"/tmp/roots/base".to_vec(),
        &vec![b"base-devel".to_vec()],
    )
    .unwrap();
    assert_eq!(
        args,
        vec![
            b"-Sy".to_vec(),
            b"--root".to_vec(),
            b"/tmp/roots/base".to_vec(),
            b"--noconfirm".to_vec(),
            b"base-devel".to_vec()
        ]
    );
    let args2 = install_pkgs_args(false, &b"r".to_vec(), &vec![b"jq".to_vec()]).unwrap();
    assert_eq!(
        args2,
        vec![
            b"-S".to_vec(),
            b"--root".to_vec(),
            b"r".to_vec(),
            b"--noconfirm".to_vec(),
            b"--needed".to_vec(),
            b"jq".to_vec()
        ]
    );
    assert!(install_pkgs_args(false, &b"r".to_vec(), &vec![]).is_none());
}

#[test]
fn build_command_isolates_the_network_on_request() {
    let (prog, args) = get_build_command(false, 1000, 1000);
    assert_eq!(prog, b"/bin/bash".to_vec());
    assert_eq!(args[0], b"/usr/bin/makepkg".to_vec());
    assert_eq!(args.last().unwrap(), &b"--ignorearch".to_vec());
    let (prog2, args2) = get_build_command(true, 1000, 998);
    assert_eq!(prog2, b"/usr/bin/unshare".to_vec());
    assert_eq!(args2[1], b"--net".to_vec());
    let script = String::from_utf8(args2[5].clone()).unwrap();
    assert!(script.contains("--map-users=1000:0:1"));
    assert!(script.contains("--map-groups=998:0:1"));
    assert!(script.contains("ip link set dev lo up"));
}

#[test]
fn transfer_tool_arguments() {
    let url = b"https://x.org/f".to_vec();
    let path = b"sources/file-sha256/aa".to_vec();
    assert_eq!(ftp_args(&url, &path)[0], b"-qgfC".to_vec());
    assert_eq!(http_args(&url, &path)[0], b"-qgb".to_vec());
    assert_eq!(rsync_args(&url, &path), vec![b"--no-motd".to_vec(), b"-z".to_vec(), url.clone(),
        path.clone()]);
    assert_eq!(scp_args(&url, &path), vec![b"-C".to_vec(), url.clone(), path.clone()]);
}

#[test]
fn file_urls_strip_their_scheme() {
    assert_eq!(file_url_path(&b"file:///tmp/x".to_vec()), Ok(b"/tmp/x".to_vec()));
    assert!(file_url_path(&b"https://x.org/f".to_vec()).is_err());
}

#[test]
fn download_size_is_capped_without_content_length() {
    assert_eq!(download_limit(Some(123)), 123);
    assert_eq!(download_limit(None), 0x100000000);
}

#[test]
fn git_mirrors_and_temp_dirs_are_content_addressed() {
    let p = git_mirror_path(&b"https://git.example.com/r.git".to_vec());
    assert!(p.starts_with(b"sources/git/"));
    assert_eq!(p.len(), b"sources/git/".len() + 16);
    assert_eq!(p, git_mirror_path(&b"https://git.example.com/r.git".to_vec()));
    assert_ne!(p, git_mirror_path(&b"https://git.example.com/other.git".to_vec()));
    assert_eq!(get_temp_pkgdir(&b"nv-abc".to_vec()), b"pkgs/nv-abc.temp".to_vec());
}

#[test]
fn extraction_links_cache_entries_into_the_build_tree() {
    let mut s1 = repo_builder::source::Source {
        name: b"t.tar".to_vec(),
        protocol: Protocol::Netfile { protocol: NetfileProtocol::Https },
        url: b"https://x.org/t.tar".to_vec(),
        hash_url: 0,
        ck: None,
        md5: None,
        sha1: None,
        sha224: None,
        sha256: Some(vec![0xaa; 32]),
        sha384: None,
        sha512: None,
        b2: None,
    };
    s1.sha512 = Some(vec![0xbb; 64]);
    let mut s2 = s1.dup();
    s2.name = b"repo".to_vec();
    s2.protocol = Protocol::Vcs { protocol: VcsProtocol::Git };
    let plan = extract(&b"build/pkg".to_vec(), &vec![s1, s2]);
    assert_eq!(plan.len(), 2);
    // The last known digest kind backs the symlink.
    let mut want = b"../../sources/file-sha512/".to_vec();
    want.extend(std::iter::repeat(b"bb").take(64).flatten());
    assert_eq!(plan[0].original, want);
    assert_eq!(plan[0].link, b"build/pkg/t.tar".to_vec());
    assert!(plan[1].original.starts_with(b"../../sources/git/"));
    assert_eq!(plan[1].link, b"build/pkg/repo".to_vec());
}

#[test]
fn pkgver_output_is_trimmed_in() {
    let mut pb = Pkgbuild::init(&b"p".to_vec(), &b"https://x.org/p.git".to_vec());
    assert!(Pkgbuild::has_pkgver_func(&b"function\n".to_vec()));
    assert!(!Pkgbuild::has_pkgver_func(&b"\n".to_vec()));
    pb.fill_pkgver(&b"  1.2.r3.g123\n".to_vec());
    match &pb.pkgver {
        repo_builder::pkgbuild::Pkgver::Func { pkgver } => {
            assert_eq!(pkgver, &b"1.2.r3.g123".to_vec());
        },
        _ => panic!("expected a computed version"),
    }
    assert!(pb.extracted);
}
