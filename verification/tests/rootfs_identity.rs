use repo_builder::builddir::BuildDir;
use repo_builder::pkgbuild::{Pkgbuild, Pkgver};
use repo_builder::rootfs::{
    base_mount_specs, BaseRoot, FsModel, MountedFolder, OverlayRoot, MS_NODEV, MS_NOEXEC,
    MS_NOSUID,
};

fn is_under(m: &[u8], p: &[u8]) -> bool {
    m.len() >= p.len() && &m[..p.len()] == p && (m.len() == p.len() || m[p.len()] == b'/')
}

#[test]
fn overlay_teardown_leaves_no_mount_and_no_parent_dir() {
    let mut fs = FsModel {
        mounts: vec![b"/".to_vec(), b"roots/base".to_vec()],
        dirs: vec![b"roots".to_vec(), b"pkgs".to_vec()],
    };
    let ops_ok = vec![true, true, true, true, true, true];
    let root = OverlayRoot::new(
        &b"hello".to_vec(),
        &b"home/builder-user".to_vec(),
        true,
        &mut fs,
        &ops_ok,
    )
    .unwrap();
    assert_eq!(root.parent, b"roots/overlay-hello".to_vec());
    assert_eq!(root.merged.path, b"roots/overlay-hello/merged".to_vec());
    assert!(fs
        .mounts
        .iter()
        .any(|m| is_under(m, b"roots/overlay-hello/merged")));
    root.remove(&mut fs);
    assert!(!fs
        .mounts
        .iter()
        .any(|m| is_under(m, b"roots/overlay-hello/merged")));
    assert!(!fs.dirs.iter().any(|d| is_under(d, b"roots/overlay-hello")));
    // Mounts and directories elsewhere survive the teardown.
    assert!(fs.mounts.contains(&b"roots/base".to_vec()));
    assert!(fs.dirs.contains(&b"pkgs".to_vec()));
}

#[test]
fn overlay_failure_rolls_back_every_trace() {
    let mut fs = FsModel { mounts: vec![b"/".to_vec()], dirs: vec![] };
    // The installation step fails.
    let ops_ok = vec![true, true, false, true, true, true];
    let r = OverlayRoot::new(&b"pkg".to_vec(), &b"home/u".to_vec(), false, &mut fs, &ops_ok);
    assert!(r.is_err());
    assert!(!fs.mounts.iter().any(|m| is_under(m, b"roots/overlay-pkg")));
    assert!(!fs.dirs.iter().any(|d| is_under(d, b"roots/overlay-pkg")));
}

#[test]
fn overlay_succeeds_exactly_when_every_needed_step_did() {
    // Without signing keys the key-bind outcome is not consulted.
    let mut fs = FsModel { mounts: vec![], dirs: vec![] };
    let ops_ok = vec![true, true, true, true, false, true];
    assert!(OverlayRoot::new(&b"p".to_vec(), &b"h".to_vec(), false, &mut fs, &ops_ok).is_ok());
    // With keys present, the same outcomes are a failure.
    let mut fs2 = FsModel { mounts: vec![], dirs: vec![] };
    assert!(OverlayRoot::new(&b"p".to_vec(), &b"h".to_vec(), true, &mut fs2, &ops_ok).is_err());
    // The resolver copy is a hard gate like the rest.
    let mut fs3 = FsModel { mounts: vec![], dirs: vec![] };
    let late_fail = vec![true, true, true, true, true, false];
    assert!(
        OverlayRoot::new(&b"p".to_vec(), &b"h".to_vec(), true, &mut fs3, &late_fail).is_err()
    );
}

#[test]
fn overlay_mount_carries_the_layer_arguments() {
    let root = OverlayRoot::layout(&b"hello".to_vec());
    let spec = root.overlay_spec();
    assert_eq!(spec.src, b"overlay".to_vec());
    assert_eq!(spec.fstype, b"overlay".to_vec());
    assert_eq!(spec.target, b"roots/overlay-hello/merged".to_vec());
    assert_eq!(spec.flags, 0);
    assert_eq!(
        spec.data,
        b"lowerdir=roots/base,upperdir=roots/overlay-hello/upper,workdir=roots/overlay-hello/work"
            .to_vec()
    );
}

#[test]
fn base_root_teardown_spares_the_rest_and_lists_its_copies() {
    let mut fs = FsModel {
        mounts: vec![b"/".to_vec(), b"roots/base/proc".to_vec()],
        dirs: vec![b"pkgs".to_vec(), b"roots/base/stale".to_vec()],
    };
    let root = BaseRoot::new(&mut fs, &b"home/u".to_vec(), true).unwrap();
    // Stale entries under the base are gone; unrelated entries survive.
    assert!(!fs.dirs.contains(&b"roots/base/stale".to_vec()));
    assert!(fs.dirs.contains(&b"pkgs".to_vec()));
    assert_eq!(fs.mounts, vec![b"/".to_vec()]);
    assert!(fs.dirs.contains(&b"roots/base/home/u/builder".to_vec()));
    let copies = repo_builder::rootfs::base_setup_copies(root.path());
    assert_eq!(copies.len(), 4);
    assert_eq!(copies[0].0, b"/etc/passwd".to_vec());
    assert_eq!(copies[0].1, b"roots/base/etc/passwd".to_vec());
    assert_eq!(copies[3].1, b"roots/base/etc/makepkg.conf".to_vec());
    let (rsrc, rtgt) = repo_builder::rootfs::resolv_conf_copy(root.path());
    assert_eq!(rsrc, b"/etc/resolv.conf".to_vec());
    assert_eq!(rtgt, b"roots/base/etc/resolv.conf".to_vec());
}

#[test]
fn base_root_builds_layout_and_unmounts() {
    let mut fs = FsModel { mounts: vec![], dirs: vec![] };
    let root = BaseRoot::new(&mut fs, &b"home/u".to_vec(), true).unwrap();
    assert_eq!(root.as_str(), "roots/base");
    assert_eq!(root.path(), &b"roots/base".to_vec());
    assert_eq!(root.db_path(), b"roots/base/var/lib/pacman".to_vec());
    assert!(!fs.mounts.iter().any(|m| is_under(m, b"roots/base")));
    assert!(fs.dirs.contains(&b"roots/base/var/lib/pacman".to_vec()));
    assert!(fs.dirs.contains(&b"roots/base/proc".to_vec()));
}

#[test]
fn base_root_install_failure_rolls_back() {
    let mut fs = FsModel { mounts: vec![], dirs: vec![] };
    assert!(BaseRoot::new(&mut fs, &b"home/u".to_vec(), false).is_err());
    assert!(!fs.dirs.iter().any(|d| is_under(d, b"roots/base")));
    assert!(!fs.mounts.iter().any(|m| is_under(m, b"roots/base")));
}

#[test]
fn mounted_folder_removal_is_selective() {
    let mut fs = FsModel {
        mounts: vec![b"a/b".to_vec(), b"a/b/c".to_vec(), b"a/bc".to_vec()],
        dirs: vec![b"a/b".to_vec(), b"a/bc".to_vec()],
    };
    let f = MountedFolder { path: b"a/b".to_vec() };
    f.remove(&mut fs);
    // `a/bc` shares the byte prefix but is another component: it stays.
    assert_eq!(fs.mounts, vec![b"a/bc".to_vec()]);
    assert_eq!(fs.dirs, vec![b"a/bc".to_vec()]);
}

#[test]
fn base_mounts_are_the_pacstrap_set() {
    let specs = base_mount_specs(&b"roots/base".to_vec());
    assert_eq!(specs.len(), 7);
    assert_eq!(specs[0].src, b"proc".to_vec());
    assert_eq!(specs[0].target, b"roots/base/proc".to_vec());
    assert_eq!(specs[0].fstype, b"proc".to_vec());
    assert_eq!(specs[0].flags, MS_NOSUID | MS_NOEXEC | MS_NODEV);
    assert_eq!(specs[6].target, b"roots/base/tmp".to_vec());
    assert_eq!(specs[6].data, b"mode=1777".to_vec());
}

#[test]
fn identity_depends_on_every_input() {
    let mut pb = Pkgbuild::init(&b"nvim".to_vec(), &b"https://x.org/nvim.git".to_vec());
    pb.commit = vec![0xab; 20];
    pb.dephash = 0x0123456789abcdef;
    pb.pkgver = Pkgver::Plain;
    pb.fill_id_dir();
    let mut want = b"nvim-".to_vec();
    want.extend(std::iter::repeat(b"ab").take(20).flatten());
    want.extend(b"-0123456789abcdef");
    assert_eq!(pb.pkgid, want);
    let mut dir = b"pkgs/".to_vec();
    dir.extend(&want);
    assert_eq!(pb.pkgdir, dir);

    // Identical inputs derive the identical identity.
    let mut pb2 = Pkgbuild::init(&b"nvim".to_vec(), &b"https://x.org/nvim.git".to_vec());
    pb2.commit = vec![0xab; 20];
    pb2.dephash = 0x0123456789abcdef;
    pb2.fill_id_dir();
    assert_eq!(pb2.pkgid, pb.pkgid);

    // Changing any one input changes the identity.
    let mut pb3 = Pkgbuild::init(&b"nvim".to_vec(), &b"https://x.org/nvim.git".to_vec());
    pb3.commit = vec![0xab; 20];
    pb3.dephash = 0x0123456789abcdee;
    pb3.fill_id_dir();
    assert_ne!(pb3.pkgid, pb.pkgid);

    let mut pb4 = Pkgbuild::init(&b"nvim".to_vec(), &b"https://x.org/nvim.git".to_vec());
    pb4.commit = vec![0xac; 20];
    pb4.dephash = 0x0123456789abcdef;
    pb4.fill_id_dir();
    assert_ne!(pb4.pkgid, pb.pkgid);

    let mut pb5 = Pkgbuild::init(&b"nvim".to_vec(), &b"https://x.org/nvim.git".to_vec());
    pb5.commit = vec![0xab; 20];
    pb5.dephash = 0x0123456789abcdef;
    pb5.pkgver = Pkgver::Func { pkgver: b"1.2.3".to_vec() };
    pb5.fill_id_dir();
    assert_ne!(pb5.pkgid, pb.pkgid);
    let mut want5 = want.clone();
    want5.extend(b"-1.2.3");
    assert_eq!(pb5.pkgid, want5);
}

#[test]
fn build_dir_takes_plain_log_name_when_free() {
    let mut d = BuildDir::new(&b"pkg".to_vec(), false).unwrap();
    assert_eq!(d.path, b"build/pkg".to_vec());
    assert!(d.finish(&vec![b"src".to_vec()]).is_ok());
    assert_eq!(d.log_path, b"build/pkg/log".to_vec());
}

#[test]
fn build_dir_picks_random_suffix_when_log_taken() {
    let mut d = BuildDir::new(&b"pkg".to_vec(), false).unwrap();
    assert!(d.finish(&vec![b"log".to_vec()]).is_ok());
    assert!(d.log_path.starts_with(b"build/pkg/log"));
    let name = &d.log_path[b"build/pkg/".len()..];
    assert_eq!(name.len(), 10);
    assert!(name[3..].iter().all(|b| b.is_ascii_alphanumeric()));
}

#[test]
fn build_dir_blocked_by_file_is_error() {
    assert!(BuildDir::new(&b"pkg".to_vec(), true).is_err());
}

#[test]
fn healthy_probe_sets_commit() {
    let mut pb = Pkgbuild::init(&b"p".to_vec(), &b"https://x.org/p.git".to_vec());
    assert!(!pb.healthy_set_commit(None));
    assert!(pb.healthy_set_commit(Some(vec![7u8; 20])));
    assert_eq!(pb.commit, vec![7u8; 20]);
}
