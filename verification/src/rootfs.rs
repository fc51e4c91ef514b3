//! Layered build roots over a model of the machine's mount table and
//! directory tree. The base root is built once and read-only from every
//! overlay's view; each package gets a disposable copy-on-write overlay
//! whose teardown — on success, on any construction failure, and on drop —
//! leaves no mount entry under its merged path and removes its directory.
//! The mount system calls themselves run outside; every decision about what
//! to mount, where, and what teardown must achieve is verified here.
use vstd::prelude::*;
use vstd::string::StringSliceAdditionalSpecFns;

use crate::bytes::{append_bytes, byte_views, bytes_eq_slice, is_path_under, path_is_under,
    push_byte, str_bytes};
use crate::pkgbuild::{join_path, joined_path};
use crate::source::clone_bytes;

verus! {

/// Kernel mount flags, as the mount system call takes them.
pub const MS_RDONLY: u64 = 1;

pub const MS_NOSUID: u64 = 2;

pub const MS_NODEV: u64 = 4;

pub const MS_NOEXEC: u64 = 8;

pub const MS_BIND: u64 = 4096;

pub const MS_STRICTATIME: u64 = 16777216;

/// The mount table and directory tree this crate's decisions are judged
/// against: mount points in mount order (later entries are inner), and the
/// directories that exist.
pub struct FsModel {
    pub mounts: Vec<Vec<u8>>,
    pub dirs: Vec<Vec<u8>>,
}

/// No mount point lies at or under the path.
pub open spec fn no_mount_under(mounts: Seq<Seq<u8>>, path: Seq<u8>) -> bool {
    forall|i: int| 0 <= i < mounts.len() ==> !is_path_under(#[trigger] mounts[i], path)
}

/// No directory lies at or under the path.
pub open spec fn no_dir_under(dirs: Seq<Seq<u8>>, path: Seq<u8>) -> bool {
    forall|i: int| 0 <= i < dirs.len() ==> !is_path_under(#[trigger] dirs[i], path)
}

/// The entries that survive removing everything at or under a path, in
/// order.
pub open spec fn kept_outside(s: Seq<Seq<u8>>, path: Seq<u8>) -> Seq<Seq<u8>>
    decreases s.len(),
{
    if s.len() == 0 {
        Seq::empty()
    } else {
        kept_outside(s.drop_last(), path) + (if is_path_under(s.last(), path) {
            Seq::<Seq<u8>>::empty()
        } else {
            seq![s.last()]
        })
    }
}

/// What survives has nothing under the path, and kept entries are kept.
pub proof fn lemma_kept_outside(s: Seq<Seq<u8>>, path: Seq<u8>)
    ensures
        no_mount_under(kept_outside(s, path), path),
        forall|i: int|
            0 <= i < s.len() && !is_path_under(#[trigger] s[i], path) ==> kept_outside(
                s,
                path,
            ).contains(s[i]),
    decreases s.len(),
{
    if s.len() > 0 {
        lemma_kept_outside(s.drop_last(), path);
        let k = kept_outside(s, path);
        let kp = kept_outside(s.drop_last(), path);
        assert forall|i: int| 0 <= i < k.len() implies !is_path_under(#[trigger] k[i], path) by {
            if i < kp.len() {
                assert(k[i] == kp[i]);
            } else {
                assert(k[i] == s.last());
            }
        }
        assert forall|i: int|
            0 <= i < s.len() && !is_path_under(#[trigger] s[i], path) implies k.contains(s[i]) by {
            if i < s.len() - 1 {
                assert(s.drop_last()[i] == s[i]);
                assert(kp.contains(s[i]));
                let j = choose|j: int| 0 <= j < kp.len() && kp[j] == s[i];
                assert(k[j] == s[i]);
            } else {
                assert(k[k.len() - 1] == s.last());
            }
        }
    }
}

/// The filter distributes over concatenation.
pub proof fn lemma_kept_outside_concat(a: Seq<Seq<u8>>, b: Seq<Seq<u8>>, path: Seq<u8>)
    ensures
        kept_outside(a + b, path) == kept_outside(a, path) + kept_outside(b, path),
    decreases b.len(),
{
    if b.len() == 0 {
        assert(a + b =~= a);
        assert(kept_outside(a, path) + kept_outside(b, path) =~= kept_outside(a, path));
    } else {
        lemma_kept_outside_concat(a, b.drop_last(), path);
        assert((a + b).drop_last() =~= a + b.drop_last());
        assert((a + b).last() == b.last());
        assert(kept_outside(a, path) + kept_outside(b, path) =~= kept_outside(a + b, path));
    }
}

/// A list with nothing under the path passes the filter unchanged.
pub proof fn lemma_kept_outside_noop(s: Seq<Seq<u8>>, path: Seq<u8>)
    requires
        forall|i: int| 0 <= i < s.len() ==> !is_path_under(#[trigger] s[i], path),
    ensures
        kept_outside(s, path) == s,
    decreases s.len(),
{
    if s.len() > 0 {
        lemma_kept_outside_noop(s.drop_last(), path);
        assert(s.last() == s[s.len() - 1]);
        assert(kept_outside(s, path) =~= s);
    } else {
        assert(kept_outside(s, path) =~= s);
    }
}

/// A list entirely under the path is filtered away.
pub proof fn lemma_kept_outside_all_under(s: Seq<Seq<u8>>, path: Seq<u8>)
    requires
        forall|i: int| 0 <= i < s.len() ==> is_path_under(#[trigger] s[i], path),
    ensures
        kept_outside(s, path) == Seq::<Seq<u8>>::empty(),
    decreases s.len(),
{
    if s.len() > 0 {
        lemma_kept_outside_all_under(s.drop_last(), path);
        assert(s.last() == s[s.len() - 1]);
        assert(kept_outside(s, path) =~= Seq::<Seq<u8>>::empty());
    } else {
        assert(kept_outside(s, path) =~= Seq::<Seq<u8>>::empty());
    }
}

/// Removes every entry at or under a path from a list, keeping the order of
/// the rest.
fn retain_outside(list: &mut Vec<Vec<u8>>, path: &Vec<u8>)
    ensures
        byte_views(final(list)@) == kept_outside(byte_views(old(list)@), path@),
{
    let ghost all = byte_views(old(list)@);
    let mut out: Vec<Vec<u8>> = Vec::new();
    let mut i: usize = 0;
    proof {
        assert(all.subrange(0, 0) =~= Seq::<Seq<u8>>::empty());
        assert(byte_views(out@) =~= kept_outside(all.subrange(0, 0), path@));
    }
    while i < list.len()
        invariant
            i <= list.len(),
            list@ == old(list)@,
            all == byte_views(list@),
            byte_views(out@) == kept_outside(all.subrange(0, i as int), path@),
        decreases list.len() - i,
    {
        let ghost pre = all.subrange(0, i as int);
        let ghost post = all.subrange(0, i + 1 as int);
        proof {
            assert(post.drop_last() =~= pre);
            assert(post.last() == all[i as int]);
            assert(all[i as int] == list@[i as int]@);
        }
        let ghost ov = byte_views(out@);
        if !path_is_under(&list[i], path) {
            out.push(clone_bytes(&list[i]));
            proof {
                assert(byte_views(out@) =~= ov.push(all[i as int]));
                assert(kept_outside(post, path@) =~= ov.push(all[i as int]));
            }
        } else {
            proof {
                assert(kept_outside(post, path@) =~= ov);
            }
        }
        i += 1;
    }
    proof {
        assert(all.subrange(0, list@.len() as int) =~= all);
    }
    *list = out;
}

impl FsModel {
    /// Records a directory as created.
    pub fn mkdir(&mut self, path: &Vec<u8>)
        ensures
            byte_views(final(self).dirs@) == byte_views(old(self).dirs@).push(path@),
            final(self).mounts@ == old(self).mounts@,
    {
        let ghost dv = byte_views(self.dirs@);
        self.dirs.push(clone_bytes(path));
        proof {
            assert(byte_views(self.dirs@) =~= dv.push(path@));
        }
    }

    /// Records a mount on a target path; it becomes the innermost entry.
    pub fn mount(&mut self, target: &Vec<u8>)
        ensures
            byte_views(final(self).mounts@) == byte_views(old(self).mounts@).push(target@),
            final(self).dirs@ == old(self).dirs@,
    {
        let ghost mv = byte_views(self.mounts@);
        self.mounts.push(clone_bytes(target));
        proof {
            assert(byte_views(self.mounts@) =~= mv.push(target@));
        }
    }

    /// Unmounts everything at or under a path, innermost first, until no
    /// entry under it remains; mounts elsewhere are untouched.
    pub fn umount_all_under(&mut self, path: &Vec<u8>)
        ensures
            byte_views(final(self).mounts@) == kept_outside(byte_views(old(self).mounts@), path@),
            no_mount_under(byte_views(final(self).mounts@), path@),
            final(self).dirs@ == old(self).dirs@,
            forall|i: int|
                0 <= i < old(self).mounts@.len() && !is_path_under(
                    byte_views(old(self).mounts@)[i],
                    path@,
                ) ==> byte_views(final(self).mounts@).contains(
                    #[trigger] byte_views(old(self).mounts@)[i],
                ),
    {
        retain_outside(&mut self.mounts, path);
        proof {
            lemma_kept_outside(byte_views(old(self).mounts@), path@);
        }
    }

    /// Removes every directory at or under a path; directories elsewhere are
    /// untouched.
    pub fn remove_dirs_under(&mut self, path: &Vec<u8>)
        ensures
            byte_views(final(self).dirs@) == kept_outside(byte_views(old(self).dirs@), path@),
            no_dir_under(byte_views(final(self).dirs@), path@),
            final(self).mounts@ == old(self).mounts@,
            forall|i: int|
                0 <= i < old(self).dirs@.len() && !is_path_under(
                    byte_views(old(self).dirs@)[i],
                    path@,
                ) ==> byte_views(final(self).dirs@).contains(
                    #[trigger] byte_views(old(self).dirs@)[i],
                ),
    {
        retain_outside(&mut self.dirs, path);
        proof {
            lemma_kept_outside(byte_views(old(self).dirs@), path@);
        }
    }
}

/// A directory that may carry mounts; its removal first unmounts everything
/// under it.
pub struct MountedFolder {
    pub path: Vec<u8>,
}

impl MountedFolder {
    /// Unmounts every mount table entry at or under this folder, innermost
    /// first, until none remains.
    pub fn umount_recursive(&self, fs: &mut FsModel)
        ensures
            no_mount_under(byte_views(final(fs).mounts@), self.path@),
            byte_views(final(fs).mounts@) == kept_outside(
                byte_views(old(fs).mounts@),
                self.path@,
            ),
            final(fs).dirs@ == old(fs).dirs@,
    {
        fs.umount_all_under(&self.path);
    }

    /// Removes the folder: unmounts everything under it, then deletes its
    /// tree. Afterwards no mount entry and no directory under it remains.
    pub fn remove(&self, fs: &mut FsModel)
        ensures
            no_mount_under(byte_views(final(fs).mounts@), self.path@),
            no_dir_under(byte_views(final(fs).dirs@), self.path@),
            byte_views(final(fs).mounts@) == kept_outside(
                byte_views(old(fs).mounts@),
                self.path@,
            ),
            byte_views(final(fs).dirs@) == kept_outside(byte_views(old(fs).dirs@), self.path@),
    {
        fs.umount_all_under(&self.path);
        fs.remove_dirs_under(&self.path);
    }
}

/// Spec-level value of one mount command.
#[verifier::ext_equal]
pub ghost struct MountSpecV {
    pub src: Seq<u8>,
    pub target: Seq<u8>,
    pub fstype: Seq<u8>,
    pub flags: u64,
    pub data: Seq<u8>,
}

/// One mount command: source, target, filesystem type, flags and data, with
/// an empty type or data standing for none.
pub struct MountSpec {
    pub src: Vec<u8>,
    pub target: Vec<u8>,
    pub fstype: Vec<u8>,
    pub flags: u64,
    pub data: Vec<u8>,
}

impl View for MountSpec {
    type V = MountSpecV;

    open spec fn view(&self) -> MountSpecV {
        MountSpecV {
            src: self.src@,
            target: self.target@,
            fstype: self.fstype@,
            flags: self.flags,
            data: self.data@,
        }
    }
}

/// The views of a list of mount commands.
pub open spec fn mount_spec_views(s: Seq<MountSpec>) -> Seq<MountSpecV> {
    s.map_values(|m: MountSpec| m@)
}

/// The subdirectories every root gets, relative to its path.
pub open spec fn base_layout_names() -> Seq<Seq<u8>> {
    seq![
        "boot".spec_bytes(),
        "dev/pts".spec_bytes(),
        "dev/shm".spec_bytes(),
        "etc/pacman.d".spec_bytes(),
        "proc".spec_bytes(),
        "run".spec_bytes(),
        "sys".spec_bytes(),
        "tmp".spec_bytes(),
        "var/cache/pacman/pkg".spec_bytes(),
        "var/lib/pacman".spec_bytes(),
        "var/log".spec_bytes(),
    ]
}

/// The layout directories of a root, joined under it, in creation order.
pub open spec fn base_layout_dirs(root: Seq<u8>) -> Seq<Seq<u8>> {
    base_layout_names().map_values(|n: Seq<u8>| joined_path(root, n))
}

/// Every directory a finished base root consists of, in creation order: the
/// root itself, its layout, and the builder's directory under the invoking
/// user\'s home.
pub open spec fn base_root_dirs(home: Seq<u8>) -> Seq<Seq<u8>> {
    seq!["roots/base".spec_bytes()] + base_layout_dirs("roots/base".spec_bytes()) + seq![
        joined_path(joined_path("roots/base".spec_bytes(), home), "builder".spec_bytes()),
    ]
}

/// The pseudo-filesystem mounts every root needs before the package manager
/// can run in it, as pacstrap makes them.
pub open spec fn base_mount_specs_of(root: Seq<u8>) -> Seq<MountSpecV> {
    seq![
        MountSpecV {
            src: "proc".spec_bytes(),
            target: joined_path(root, "proc".spec_bytes()),
            fstype: "proc".spec_bytes(),
            flags: (MS_NOSUID | MS_NOEXEC | MS_NODEV) as u64,
            data: "".spec_bytes(),
        },
        MountSpecV {
            src: "sys".spec_bytes(),
            target: joined_path(root, "sys".spec_bytes()),
            fstype: "sysfs".spec_bytes(),
            flags: (MS_NOSUID | MS_NOEXEC | MS_NODEV | MS_RDONLY) as u64,
            data: "".spec_bytes(),
        },
        MountSpecV {
            src: "udev".spec_bytes(),
            target: joined_path(root, "dev".spec_bytes()),
            fstype: "devtmpfs".spec_bytes(),
            flags: MS_NOSUID as u64,
            data: "mode=0755".spec_bytes(),
        },
        MountSpecV {
            src: "devpts".spec_bytes(),
            target: joined_path(root, "dev/pts".spec_bytes()),
            fstype: "devpts".spec_bytes(),
            flags: (MS_NOSUID | MS_NOEXEC) as u64,
            data: "mode=0620,gid=5".spec_bytes(),
        },
        MountSpecV {
            src: "shm".spec_bytes(),
            target: joined_path(root, "dev/shm".spec_bytes()),
            fstype: "tmpfs".spec_bytes(),
            flags: (MS_NOSUID | MS_NODEV) as u64,
            data: "mode=1777".spec_bytes(),
        },
        MountSpecV {
            src: "run".spec_bytes(),
            target: joined_path(root, "run".spec_bytes()),
            fstype: "tmpfs".spec_bytes(),
            flags: (MS_NOSUID | MS_NODEV) as u64,
            data: "mode=0755".spec_bytes(),
        },
        MountSpecV {
            src: "tmp".spec_bytes(),
            target: joined_path(root, "tmp".spec_bytes()),
            fstype: "tmpfs".spec_bytes(),
            flags: (MS_STRICTATIME | MS_NODEV | MS_NOSUID) as u64,
            data: "mode=1777".spec_bytes(),
        },
    ]
}

/// Builds one mount command.
fn mount_spec(src: &str, root: &Vec<u8>, sub: &str, fstype: &str, flags: u64, data: &str) -> (r:
    MountSpec)
    ensures
        r@ == (MountSpecV {
            src: src.spec_bytes(),
            target: joined_path(root@, sub.spec_bytes()),
            fstype: fstype.spec_bytes(),
            flags: flags,
            data: data.spec_bytes(),
        }),
{
    let subv = str_bytes(sub);
    MountSpec {
        src: str_bytes(src),
        target: join_path(root, &subv),
        fstype: str_bytes(fstype),
        flags: flags,
        data: str_bytes(data),
    }
}

/// The mount commands for one root's pseudo-filesystems, in mount order.
pub fn base_mount_specs(root: &Vec<u8>) -> (r: Vec<MountSpec>)
    ensures
        mount_spec_views(r@) == base_mount_specs_of(root@),
{
    let mut r: Vec<MountSpec> = Vec::new();
    r.push(mount_spec("proc", root, "proc", "proc", MS_NOSUID | MS_NOEXEC | MS_NODEV, ""));
    r.push(
        mount_spec("sys", root, "sys", "sysfs", MS_NOSUID | MS_NOEXEC | MS_NODEV | MS_RDONLY, ""),
    );
    r.push(mount_spec("udev", root, "dev", "devtmpfs", MS_NOSUID, "mode=0755"));
    r.push(mount_spec("devpts", root, "dev/pts", "devpts", MS_NOSUID | MS_NOEXEC, "mode=0620,gid=5"));
    r.push(mount_spec("shm", root, "dev/shm", "tmpfs", MS_NOSUID | MS_NODEV, "mode=1777"));
    r.push(mount_spec("run", root, "run", "tmpfs", MS_NOSUID | MS_NODEV, "mode=0755"));
    r.push(mount_spec("tmp", root, "tmp", "tmpfs", MS_STRICTATIME | MS_NODEV | MS_NOSUID, "mode=1777"));
    proof {
        let mv = mount_spec_views(r@);
        let bv = base_mount_specs_of(root@);
        assert(r@.len() == 7);
        assert(mv.len() == 7 && bv.len() == 7);
        assert(mv[0] == r@[0]@);
        assert(mv[1] == r@[1]@);
        assert(mv[2] == r@[2]@);
        assert(mv[3] == r@[3]@);
        assert(mv[4] == r@[4]@);
        assert(mv[5] == r@[5]@);
        assert(mv[6] == r@[6]@);
        assert(mv[0] =~~= bv[0]);
        assert(mv[1] =~~= bv[1]);
        assert(mv[2] =~~= bv[2]);
        assert(mv[3] =~~= bv[3]);
        assert(mv[4] =~~= bv[4]);
        assert(mv[5] =~~= bv[5]);
        assert(mv[6] =~~= bv[6]);
        assert(mv =~~= bv);
    }
    r
}

/// Records a root's layout directories and pseudo-filesystem mounts in the
/// model: the layout subdirectories are created, then each base mount is
/// made, outermost first.
pub fn apply_base_mounts(root: &Vec<u8>, fs: &mut FsModel) -> (specs: Vec<MountSpec>)
    ensures
        mount_spec_views(specs@) == base_mount_specs_of(root@),
        byte_views(final(fs).mounts@) == byte_views(old(fs).mounts@)
            + base_mount_specs_of(root@).map_values(|m: MountSpecV| m.target),
        final(fs).dirs@ == old(fs).dirs@,
{
    let specs = base_mount_specs(root);
    let ghost mv0 = byte_views(fs.mounts@);
    let ghost targets = base_mount_specs_of(root@).map_values(|m: MountSpecV| m.target);
    let mut i: usize = 0;
    proof {
        assert(mv0 + targets.subrange(0, 0) =~= mv0);
        assert(byte_views(fs.mounts@) =~= mv0 + targets.subrange(0, 0));
    }
    while i < specs.len()
        invariant
            i <= specs@.len(),
            mount_spec_views(specs@) == base_mount_specs_of(root@),
            targets == base_mount_specs_of(root@).map_values(|m: MountSpecV| m.target),
            byte_views(fs.mounts@) == mv0 + targets.subrange(0, i as int),
            fs.dirs@ == old(fs).dirs@,
        decreases specs@.len() - i,
    {
        let ghost pre = byte_views(fs.mounts@);
        proof {
            assert(mount_spec_views(specs@)[i as int] == specs@[i as int]@);
            assert(targets[i as int] == base_mount_specs_of(root@)[i as int].target);
        }
        fs.mount(&specs[i].target);
        proof {
            assert(byte_views(fs.mounts@) =~= mv0 + targets.subrange(0, i + 1 as int));
        }
        i += 1;
    }
    proof {
        assert(targets.subrange(0, targets.len() as int) =~= targets);
        assert(byte_views(fs.mounts@) =~= mv0 + targets);
    }
    specs
}

/// The base root, a persistent minimal install shared read-only by every
/// overlay; rebuilt from scratch each run.
pub struct BaseRoot {
    pub folder: MountedFolder,
}

impl BaseRoot {
    /// The base root's paths alone, for performing the real operations its
    /// construction asks for; the model transaction is `new`.
    pub fn layout() -> (r: BaseRoot)
        ensures
            r.folder.path@ == "roots/base".spec_bytes(),
    {
        BaseRoot { folder: MountedFolder { path: str_bytes("roots/base") } }
    }

    /// The base root's fixed path, as a string.
    pub fn as_str(&self) -> (r: &'static str)
        ensures
            r@ == "roots/base"@,
    {
        "roots/base"
    }

    /// The base root's path.
    pub fn path(&self) -> (r: &Vec<u8>)
        ensures
            r@ == self.folder.path@,
    {
        &self.folder.path
    }

    /// The package database path inside the root.
    pub fn db_path(&self) -> (r: Vec<u8>)
        ensures
            r@ == joined_path(self.folder.path@, "var/lib/pacman".spec_bytes()),
    {
        let sub = str_bytes("var/lib/pacman");
        join_path(&self.folder.path, &sub)
    }

    /// Unmounts everything under the base root.
    pub fn umount_recursive(&self, fs: &mut FsModel)
        ensures
            no_mount_under(byte_views(final(fs).mounts@), self.folder.path@),
            byte_views(final(fs).mounts@) == kept_outside(
                byte_views(old(fs).mounts@),
                self.folder.path@,
            ),
            final(fs).dirs@ == old(fs).dirs@,
    {
        self.folder.umount_recursive(fs);
    }

    /// Removes the base root: unmounts everything under it, then deletes its
    /// tree.
    pub fn remove(&self, fs: &mut FsModel)
        ensures
            no_mount_under(byte_views(final(fs).mounts@), self.folder.path@),
            no_dir_under(byte_views(final(fs).dirs@), self.folder.path@),
            byte_views(final(fs).mounts@) == kept_outside(
                byte_views(old(fs).mounts@),
                self.folder.path@,
            ),
            byte_views(final(fs).dirs@) == kept_outside(
                byte_views(old(fs).dirs@),
                self.folder.path@,
            ),
    {
        self.folder.remove(fs);
    }

    /// Builds the base root from scratch: any stale tree from a crashed run
    /// is unmounted and removed first; the layout is created, the root bound
    /// to itself, the pseudo-filesystems mounted, the minimal package set
    /// installed, the builder's home prepared; finally everything is
    /// unmounted again — the base root persists only as a directory tree,
    /// exactly the fresh one, with nothing stale surviving under it. A
    /// failed package installation rolls the whole root back. The system
    /// configuration files the root also needs are listed by
    /// `base_setup_copies`.
    #[verifier::rlimit(100)]
    pub fn new(fs: &mut FsModel, home: &Vec<u8>, install_ok: bool) -> (r: Result<BaseRoot, ()>)
        ensures
            r is Ok <==> install_ok,
            r matches Ok(b) ==> {
                &&& b.folder.path@ == "roots/base".spec_bytes()
                &&& byte_views(final(fs).mounts@) == kept_outside(
                    byte_views(old(fs).mounts@),
                    "roots/base".spec_bytes(),
                )
                &&& no_mount_under(byte_views(final(fs).mounts@), "roots/base".spec_bytes())
                &&& byte_views(final(fs).dirs@) == kept_outside(
                    byte_views(old(fs).dirs@),
                    "roots/base".spec_bytes(),
                ) + base_root_dirs(home@)
                &&& forall|k: int|
                    0 <= k < base_layout_names().len() ==> byte_views(final(fs).dirs@).contains(
                        joined_path("roots/base".spec_bytes(), #[trigger] base_layout_names()[k]),
                    )
                &&& byte_views(final(fs).dirs@).contains(
                    joined_path(
                        joined_path("roots/base".spec_bytes(), home@),
                        "builder".spec_bytes(),
                    ),
                )
            },
            r is Err ==> no_mount_under(byte_views(final(fs).mounts@), "roots/base".spec_bytes())
                && no_dir_under(byte_views(final(fs).dirs@), "roots/base".spec_bytes()),
    {
        let ghost base = "roots/base".spec_bytes();
        let root = BaseRoot { folder: MountedFolder { path: str_bytes("roots/base") } };
        root.folder.remove(fs);
        let ghost m0 = byte_views(fs.mounts@);
        let ghost d0 = byte_views(fs.dirs@);
        proof {
            lemma_kept_outside(byte_views(old(fs).mounts@), base);
            lemma_kept_outside(byte_views(old(fs).dirs@), base);
        }
        fs.mkdir(&root.folder.path);
        let mut k: usize = 0;
        let names = layout_name_vecs();
        proof {
            assert(byte_views(fs.dirs@) =~= d0.push(base) + base_layout_dirs(base).subrange(
                0,
                0,
            ));
        }
        while k < names.len()
            invariant
                k <= names@.len(),
                byte_views(names@) == base_layout_names(),
                root.folder.path@ == "roots/base".spec_bytes(),
                base == "roots/base".spec_bytes(),
                byte_views(fs.mounts@) == m0,
                byte_views(fs.dirs@) == d0.push(base) + base_layout_dirs(base).subrange(
                    0,
                    k as int,
                ),
            decreases names@.len() - k,
        {
            assert(byte_views(names@)[k as int] == names@[k as int]@);
            let sub = join_path(&root.folder.path, &names[k]);
            let ghost dv = byte_views(fs.dirs@);
            fs.mkdir(&sub);
            proof {
                assert(base_layout_dirs(base)[k as int] == joined_path(
                    base,
                    base_layout_names()[k as int],
                ));
                assert(byte_views(fs.dirs@) =~= dv.push(sub@));
                assert(byte_views(fs.dirs@) =~= d0.push(base) + base_layout_dirs(base).subrange(
                    0,
                    k + 1 as int,
                ));
            }
            k += 1;
        }
        proof {
            assert(base_layout_dirs(base).subrange(0, base_layout_dirs(base).len() as int)
                =~= base_layout_dirs(base));
        }
        fs.mount(&root.folder.path);
        let _specs = apply_base_mounts(&root.folder.path, fs);
        if !install_ok {
            root.folder.remove(fs);
            return Err(());
        }
        let ghost m1 = byte_views(fs.mounts@);
        let ghost targets = base_mount_specs_of(base).map_values(|m: MountSpecV| m.target);
        let ghost added = seq![base] + targets;
        proof {
            assert(m1 =~= m0 + added);
        }
        let hp = join_path(&root.folder.path, home);
        let bn = str_bytes("builder");
        let builder_dir = join_path(&hp, &bn);
        let ghost dv = byte_views(fs.dirs@);
        fs.mkdir(&builder_dir);
        proof {
            assert(byte_views(fs.dirs@) =~= kept_outside(byte_views(old(fs).dirs@), base)
                + base_root_dirs(home@));
            let bd = byte_views(fs.dirs@);
            assert forall|j: int| 0 <= j < base_layout_names().len() implies bd.contains(
                joined_path(base, #[trigger] base_layout_names()[j]),
            ) by {
                assert(bd[d0.len() + 1 + j] == base_layout_dirs(base)[j]);
                assert(base_layout_dirs(base)[j] == joined_path(base, base_layout_names()[j]));
            }
            assert(bd[bd.len() - 1] == builder_dir@);
            assert(bd.contains(joined_path(joined_path(base, home@), "builder".spec_bytes())));
        }
        root.folder.umount_recursive(fs);
        proof {
            assert forall|i: int| 0 <= i < added.len() implies is_path_under(
                #[trigger] added[i],
                base,
            ) by {
                if i == 0 {
                    assert(base.subrange(0, base.len() as int) =~= base);
                } else {
                    assert(added[i] == targets[i - 1]);
                    assert(targets[i - 1] == base_mount_specs_of(base)[i - 1].target);
                    if i - 1 == 0 {
                        lemma_join_is_under(base, "proc".spec_bytes());
                    } else if i - 1 == 1 {
                        lemma_join_is_under(base, "sys".spec_bytes());
                    } else if i - 1 == 2 {
                        lemma_join_is_under(base, "dev".spec_bytes());
                    } else if i - 1 == 3 {
                        lemma_join_is_under(base, "dev/pts".spec_bytes());
                    } else if i - 1 == 4 {
                        lemma_join_is_under(base, "dev/shm".spec_bytes());
                    } else if i - 1 == 5 {
                        lemma_join_is_under(base, "run".spec_bytes());
                    } else {
                        lemma_join_is_under(base, "tmp".spec_bytes());
                    }
                }
            }
            lemma_kept_outside_concat(m0, added, base);
            lemma_kept_outside_noop(m0, base);
            lemma_kept_outside_all_under(added, base);
            assert(byte_views(fs.mounts@) =~= m0);
        }
        Ok(root)
    }
}

/// The layout names as byte vectors.
fn layout_name_vecs() -> (r: Vec<Vec<u8>>)
    ensures
        byte_views(r@) == base_layout_names(),
{
    let mut r: Vec<Vec<u8>> = Vec::new();
    r.push(str_bytes("boot"));
    r.push(str_bytes("dev/pts"));
    r.push(str_bytes("dev/shm"));
    r.push(str_bytes("etc/pacman.d"));
    r.push(str_bytes("proc"));
    r.push(str_bytes("run"));
    r.push(str_bytes("sys"));
    r.push(str_bytes("tmp"));
    r.push(str_bytes("var/cache/pacman/pkg"));
    r.push(str_bytes("var/lib/pacman"));
    r.push(str_bytes("var/log"));
    assert(byte_views(r@) =~= base_layout_names());
    r
}

/// The system configuration files every base root needs copied in from the
/// host, as (source, target) pairs: account data so the builder's identity
/// exists inside, and the build frontend's configuration.
pub open spec fn base_setup_copies_of(root: Seq<u8>) -> Seq<(Seq<u8>, Seq<u8>)> {
    seq![
        ("/etc/passwd".spec_bytes(), joined_path(root, "etc/passwd".spec_bytes())),
        ("/etc/group".spec_bytes(), joined_path(root, "etc/group".spec_bytes())),
        ("/etc/shadow".spec_bytes(), joined_path(root, "etc/shadow".spec_bytes())),
        ("/etc/makepkg.conf".spec_bytes(), joined_path(root, "etc/makepkg.conf".spec_bytes())),
    ]
}

/// The views of a list of copy pairs.
pub open spec fn copy_pair_views(s: Seq<(Vec<u8>, Vec<u8>)>) -> Seq<(Seq<u8>, Seq<u8>)> {
    s.map_values(|p: (Vec<u8>, Vec<u8>)| (p.0@, p.1@))
}

/// Builds the copy list of the base root's setup, in copy order.
pub fn base_setup_copies(root: &Vec<u8>) -> (r: Vec<(Vec<u8>, Vec<u8>)>)
    ensures
        copy_pair_views(r@) == base_setup_copies_of(root@),
{
    let mut r: Vec<(Vec<u8>, Vec<u8>)> = Vec::new();
    let p1 = str_bytes("etc/passwd");
    r.push((str_bytes("/etc/passwd"), join_path(root, &p1)));
    let p2 = str_bytes("etc/group");
    r.push((str_bytes("/etc/group"), join_path(root, &p2)));
    let p3 = str_bytes("etc/shadow");
    r.push((str_bytes("/etc/shadow"), join_path(root, &p3)));
    let p4 = str_bytes("etc/makepkg.conf");
    r.push((str_bytes("/etc/makepkg.conf"), join_path(root, &p4)));
    assert(copy_pair_views(r@) =~~= base_setup_copies_of(root@));
    r
}

/// The copy that gives a root working name resolution: the host's resolver
/// configuration, placed at the same path inside.
pub fn resolv_conf_copy(root: &Vec<u8>) -> (r: (Vec<u8>, Vec<u8>))
    ensures
        r.0@ == "/etc/resolv.conf".spec_bytes(),
        r.1@ == joined_path(root@, "etc/resolv.conf".spec_bytes()),
{
    let sub = str_bytes("etc/resolv.conf");
    (str_bytes("/etc/resolv.conf"), join_path(root, &sub))
}

/// The layout directories of a root, joined under it, in creation order.
pub fn base_layout_paths(root: &Vec<u8>) -> (r: Vec<Vec<u8>>)
    ensures
        byte_views(r@) == base_layout_dirs(root@),
{
    let names = layout_name_vecs();
    let mut r: Vec<Vec<u8>> = Vec::new();
    let mut k: usize = 0;
    proof {
        assert(byte_views(r@) =~= base_layout_dirs(root@).subrange(0, 0));
    }
    while k < names.len()
        invariant
            k <= names@.len(),
            byte_views(names@) == base_layout_names(),
            byte_views(r@) == base_layout_dirs(root@).subrange(0, k as int),
        decreases names@.len() - k,
    {
        assert(byte_views(names@)[k as int] == names@[k as int]@);
        let ghost rv = byte_views(r@);
        r.push(join_path(root, &names[k]));
        proof {
            assert(base_layout_dirs(root@)[k as int] == joined_path(
                root@,
                base_layout_names()[k as int],
            ));
            assert(byte_views(r@) =~= rv.push(joined_path(root@, base_layout_names()[k as int])));
            assert(byte_views(r@) =~= base_layout_dirs(root@).subrange(0, k + 1 as int));
        }
        k += 1;
    }
    proof {
        assert(base_layout_dirs(root@).subrange(0, base_layout_dirs(root@).len() as int)
            =~= base_layout_dirs(root@));
    }
    r
}

/// The parent directory of one package's overlay root.
pub open spec fn overlay_parent_of(name: Seq<u8>) -> Seq<u8> {
    "roots/overlay-".spec_bytes() + name
}

/// Every mount a finished overlay root carries, outermost first: the merged
/// overlay itself, its pseudo-filesystems, the builder's working directory,
/// and — where present — their signing keys.
pub open spec fn overlay_mount_targets(parent: Seq<u8>, home: Seq<u8>, has_gpg: bool) -> Seq<
    Seq<u8>,
> {
    let merged = joined_path(parent, "merged".spec_bytes());
    seq![merged] + base_mount_specs_of(merged).map_values(|m: MountSpecV| m.target) + seq![
        joined_path(joined_path(merged, home), "builder".spec_bytes()),
    ] + (if has_gpg {
        seq![joined_path(joined_path(merged, home), ".gnupg".spec_bytes())]
    } else {
        Seq::<Seq<u8>>::empty()
    })
}

/// A disposable copy-on-write root for one package build: upper and work
/// layers over the read-only base, merged at its mount point.
pub struct OverlayRoot {
    pub parent: Vec<u8>,
    pub upper: Vec<u8>,
    pub work: Vec<u8>,
    pub merged: MountedFolder,
}

/// The data argument of one overlay mount: the shared base read-only below,
/// the root's own upper and work layers above.
pub open spec fn overlay_mount_data_of(upper: Seq<u8>, work: Seq<u8>) -> Seq<u8> {
    "lowerdir=roots/base,upperdir=".spec_bytes() + upper + ",workdir=".spec_bytes() + work
}

impl OverlayRoot {
    /// The root's path: its merged mount point.
    pub fn path(&self) -> (r: &Vec<u8>)
        ensures
            r@ == self.merged.path@,
    {
        &self.merged.path
    }

    /// This root's paths alone, for performing the real operations its
    /// construction asks for; the model transaction is `new`.
    pub fn layout(name: &Vec<u8>) -> (r: OverlayRoot)
        ensures
            r.parent@ == overlay_parent_of(name@),
            r.upper@ == joined_path(overlay_parent_of(name@), "upper".spec_bytes()),
            r.work@ == joined_path(overlay_parent_of(name@), "work".spec_bytes()),
            r.merged.path@ == joined_path(overlay_parent_of(name@), "merged".spec_bytes()),
            is_path_under(r.merged.path@, r.parent@),
    {
        let mut parent = str_bytes("roots/overlay-");
        append_bytes(&mut parent, name);
        let un = str_bytes("upper");
        let wn = str_bytes("work");
        let mn = str_bytes("merged");
        let r = OverlayRoot {
            upper: join_path(&parent, &un),
            work: join_path(&parent, &wn),
            merged: MountedFolder { path: join_path(&parent, &mn) },
            parent,
        };
        proof {
            lemma_join_is_under(r.parent@, "merged".spec_bytes());
        }
        r
    }

    /// The copy-on-write mount command of this root: an overlay filesystem
    /// on the merged directory, with the base root as its read-only lower
    /// layer and this root's upper and work directories as the writable
    /// ones.
    pub fn overlay_spec(&self) -> (r: MountSpec)
        ensures
            r@ == (MountSpecV {
                src: "overlay".spec_bytes(),
                target: self.merged.path@,
                fstype: "overlay".spec_bytes(),
                flags: 0,
                data: overlay_mount_data_of(self.upper@, self.work@),
            }),
    {
        let mut data = str_bytes("lowerdir=roots/base,upperdir=");
        append_bytes(&mut data, &self.upper);
        let mid = str_bytes(",workdir=");
        append_bytes(&mut data, &mid);
        append_bytes(&mut data, &self.work);
        MountSpec {
            src: str_bytes("overlay"),
            target: clone_bytes(&self.merged.path),
            fstype: str_bytes("overlay"),
            flags: 0,
            data,
        }
    }

    /// Tears the overlay down: no mount table entry remains under its
    /// merged path — nor anywhere under its parent — and the parent
    /// directory itself no longer exists. Mounts and directories elsewhere
    /// survive.
    pub fn remove(&self, fs: &mut FsModel)
        requires
            is_path_under(self.merged.path@, self.parent@),
        ensures
            no_mount_under(byte_views(final(fs).mounts@), self.merged.path@),
            no_mount_under(byte_views(final(fs).mounts@), self.parent@),
            no_dir_under(byte_views(final(fs).dirs@), self.parent@),
            byte_views(final(fs).mounts@) == kept_outside(
                byte_views(old(fs).mounts@),
                self.parent@,
            ),
            byte_views(final(fs).dirs@) == kept_outside(byte_views(old(fs).dirs@), self.parent@),
    {
        fs.umount_all_under(&self.parent);
        fs.remove_dirs_under(&self.parent);
        proof {
            let mv = byte_views(fs.mounts@);
            assert forall|i: int| 0 <= i < mv.len() implies !is_path_under(
                #[trigger] mv[i],
                self.merged.path@,
            ) by {
                if is_path_under(mv[i], self.merged.path@) {
                    lemma_under_path_trans(mv[i], self.merged.path@, self.parent@);
                }
            }
        }
    }

    /// Builds the overlay root for one package: any stale tree is removed,
    /// the layer directories are created, the overlay and the
    /// pseudo-filesystems are mounted, the build dependencies installed,
    /// the builder's working directory — and their signing keys, where
    /// present — bound in, and name resolution copied in. `ops_ok` reports,
    /// in order, whether the overlay mount, the pseudo-filesystem mounts,
    /// the installation, the builder bind, the key bind and the resolver
    /// copy succeeded; the first failure rolls every trace of the root
    /// back.
    pub fn new(
        name: &Vec<u8>,
        home: &Vec<u8>,
        has_gpg: bool,
        fs: &mut FsModel,
        ops_ok: &Vec<bool>,
    ) -> (r: Result<OverlayRoot, ()>)
        requires
            ops_ok@.len() >= 6,
        ensures
            r is Ok <==> ops_ok@[0] && ops_ok@[1] && ops_ok@[2] && ops_ok@[3] && (has_gpg
                ==> ops_ok@[4]) && ops_ok@[5],
            r matches Ok(root) ==> {
                &&& root.parent@ == overlay_parent_of(name@)
                &&& root.upper@ == joined_path(overlay_parent_of(name@), "upper".spec_bytes())
                &&& root.work@ == joined_path(overlay_parent_of(name@), "work".spec_bytes())
                &&& root.merged.path@ == joined_path(
                    overlay_parent_of(name@),
                    "merged".spec_bytes(),
                )
                &&& is_path_under(root.merged.path@, root.parent@)
                &&& byte_views(final(fs).mounts@) == kept_outside(
                    byte_views(old(fs).mounts@),
                    overlay_parent_of(name@),
                ) + overlay_mount_targets(overlay_parent_of(name@), home@, has_gpg)
            },
            r is Err ==> no_mount_under(
                byte_views(final(fs).mounts@),
                overlay_parent_of(name@),
            ) && no_dir_under(byte_views(final(fs).dirs@), overlay_parent_of(name@)),
    {
        let root = Self::layout(name);
        fs.umount_all_under(&root.parent);
        fs.remove_dirs_under(&root.parent);
        fs.mkdir(&root.parent);
        fs.mkdir(&root.upper);
        fs.mkdir(&root.work);
        fs.mkdir(&root.merged.path);
        if !ops_ok[0] {
            root.remove(fs);
            return Err(());
        }
        fs.mount(&root.merged.path);
        if !ops_ok[1] {
            root.remove(fs);
            return Err(());
        }
        let _specs = apply_base_mounts(&root.merged.path, fs);
        if !ops_ok[2] {
            root.remove(fs);
            return Err(());
        }
        if !ops_ok[3] {
            root.remove(fs);
            return Err(());
        }
        let hp = join_path(&root.merged.path, home);
        let bn = str_bytes("builder");
        let builder_dir = join_path(&hp, &bn);
        fs.mount(&builder_dir);
        if has_gpg {
            let gn = str_bytes(".gnupg");
            let gpg_dir = join_path(&hp, &gn);
            fs.mkdir(&gpg_dir);
            if !ops_ok[4] {
                root.remove(fs);
                return Err(());
            }
            fs.mount(&gpg_dir);
        }
        if !ops_ok[5] {
            root.remove(fs);
            return Err(());
        }
        Ok(root)
    }
}

/// A joined path lies under its parent.
pub proof fn lemma_join_is_under(parent: Seq<u8>, child: Seq<u8>)
    ensures
        is_path_under(joined_path(parent, child), parent),
{
    let j = joined_path(parent, child);
    assert(j.subrange(0, parent.len() as int) =~= parent);
    assert(j[parent.len() as int] == 47u8);
}

/// Lying under an inner path implies lying under the outer one, when the
/// inner lies under the outer.
pub proof fn lemma_under_path_trans(m: Seq<u8>, inner: Seq<u8>, outer: Seq<u8>)
    requires
        is_path_under(m, inner),
        is_path_under(inner, outer),
    ensures
        is_path_under(m, outer),
{
    assert forall|i: int| 0 <= i < outer.len() implies m[i] == outer[i] by {
        assert(m.subrange(0, inner.len() as int)[i] == inner[i]);
        assert(inner.subrange(0, outer.len() as int)[i] == outer[i]);
    }
    assert(m.subrange(0, outer.len() as int) =~= outer);
    if m.len() > outer.len() {
        if inner.len() == outer.len() {
            assert(m[outer.len() as int] == 47u8);
        } else {
            assert(m.subrange(0, inner.len() as int)[outer.len() as int] == inner[outer.len() as int]);
            assert(inner[outer.len() as int] == 47u8);
        }
    }
}

} // verus!
