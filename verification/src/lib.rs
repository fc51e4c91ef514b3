//! Verified core of an Arch package build orchestrator: source records and
//! their digest-keyed cache, domain-partitioned fetch scheduling, dependency
//! normalisation, package identities, layered build roots with guaranteed
//! teardown, and the bounded-retry build driver.
pub mod builddir;
pub mod bytes;
pub mod checksum;
pub mod cmdline;
pub mod depends;
pub mod driver;
pub mod fetch;
pub mod hexfmt;
pub mod integ;
pub mod parse;
pub mod pkgbuild;
pub mod rootfs;
pub mod sched;
pub mod source;
