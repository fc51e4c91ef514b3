//! One package's scratch build directory and the log file placed in it:
//! the log is named `log`, or `log` plus seven random alphanumeric
//! characters when that name is taken, giving up after a thousand tries.
use vstd::prelude::*;
use vstd::string::StringSliceAdditionalSpecFns;

use crate::bytes::{append_bytes, byte_views, str_bytes};
use crate::driver::contains_id;
use crate::pkgbuild::{join_path, joined_path};

verus! {

/// An ASCII letter or digit.
pub open spec fn is_alnum(b: u8) -> bool {
    (48 <= b <= 57) || (65 <= b <= 90) || (97 <= b <= 122)
}

/// Relies on rand's thread-local generator sampling the Alphanumeric
/// distribution: every byte drawn is an ASCII letter or digit; nothing else
/// can be promised of a random value.
#[verifier::external_body]
pub fn random_alnum_bytes(n: usize) -> (r: Vec<u8>)
    ensures
        r@.len() == n,
        forall|i: int| 0 <= i < r@.len() ==> is_alnum(#[trigger] r@[i]),
{
    let mut rng = rand::rng();
    (0..n).map(|_| rand::RngExt::sample(&mut rng, rand::distr::Alphanumeric)).collect()
}

/// A valid log name: the plain one, or the plain one with seven
/// alphanumeric characters appended.
pub open spec fn is_log_name(nm: Seq<u8>) -> bool {
    ||| nm == "log".spec_bytes()
    ||| (nm.len() == "log".spec_bytes().len() + 7 && nm.subrange(
        0,
        "log".spec_bytes().len() as int,
    ) == "log".spec_bytes() && forall|i: int|
        "log".spec_bytes().len() <= i < nm.len() ==> is_alnum(#[trigger] nm[i]))
}

/// One package's scratch build directory, and the path its build log will
/// be written to.
pub struct BuildDir {
    pub path: Vec<u8>,
    pub log_path: Vec<u8>,
}

impl BuildDir {
    /// The build directory of one package: `build/<name>`. A pre-existing
    /// entry of that name which is no directory cannot be used and is an
    /// error.
    pub fn new(name: &Vec<u8>, blocked_by_file: bool) -> (r: Result<BuildDir, ()>)
        ensures
            r is Ok <==> !blocked_by_file,
            r matches Ok(d) ==> d.path@ == joined_path("build".spec_bytes(), name@) && d.log_path@
                == d.path@,
    {
        if blocked_by_file {
            return Err(());
        }
        let parent = str_bytes("build");
        let path = join_path(&parent, name);
        let log_path = crate::source::clone_bytes(&path);
        Ok(BuildDir { path, log_path })
    }

    /// Picks the log path: the name `log`, or with a random alphanumeric
    /// suffix whenever the candidate is among the taken names, trying up to
    /// a thousand times.
    pub fn fill_log_path(&mut self, taken: &Vec<Vec<u8>>) -> (r: Result<(), ()>)
        ensures
            final(self).path@ == old(self).path@,
            r matches Ok(()) ==> exists|nm: Seq<u8>|
                {
                    &&& is_log_name(nm)
                    &&& !byte_views(taken@).contains(nm)
                    &&& final(self).log_path@ == joined_path(old(self).path@, nm)
                },
            r is Err ==> final(self).log_path@ == old(self).log_path@,
            !byte_views(taken@).contains("log".spec_bytes()) ==> (r matches Ok(())
                && final(self).log_path@ == joined_path(old(self).path@, "log".spec_bytes())),
    {
        let mut log_name = str_bytes("log");
        let mut i: usize = 0;
        loop
            invariant
                self == old(self),
                is_log_name(log_name@),
                i == 0 ==> log_name@ == "log".spec_bytes(),
                i > 0 ==> byte_views(taken@).contains("log".spec_bytes()),
                i <= 1000,
            decreases 1000 - i,
        {
            if !contains_id(taken, &log_name) {
                self.log_path = join_path(&self.path, &log_name);
                proof {
                    assert(is_log_name(log_name@) && !byte_views(taken@).contains(log_name@)
                        && self.log_path@ == joined_path(old(self).path@, log_name@));
                }
                return Ok(());
            }
            i += 1;
            if i > 1000 {
                return Err(());
            }
            log_name = str_bytes("log");
            let suffix = random_alnum_bytes(7);
            append_bytes(&mut log_name, &suffix);
            proof {
                assert(log_name@.subrange(0, "log".spec_bytes().len() as int) =~= "log".spec_bytes());
            }
        }
    }

    /// Finishes the directory for use: the log path is picked among the
    /// names not yet taken in it.
    pub fn finish(&mut self, taken: &Vec<Vec<u8>>) -> (r: Result<(), ()>)
        ensures
            final(self).path@ == old(self).path@,
            r matches Ok(()) ==> exists|nm: Seq<u8>|
                {
                    &&& is_log_name(nm)
                    &&& !byte_views(taken@).contains(nm)
                    &&& final(self).log_path@ == joined_path(old(self).path@, nm)
                },
            !byte_views(taken@).contains("log".spec_bytes()) ==> (r matches Ok(())
                && final(self).log_path@ == joined_path(old(self).path@, "log".spec_bytes())),
    {
        self.fill_log_path(taken)
    }
}

} // verus!
