//! Identity of one compiler toolchain under test.
//!
//! A toolchain is named by a release string (a channel name or a dated
//! nightly).  Each toolchain builds into its own target directory so that
//! artifacts from different releases never collide.  Installation and removal
//! are performed by an external toolchain manager; this module only derives
//! the values those calls need and classifies their outcomes.

use vstd::prelude::*;
use vstd::string::StringExecFns;

use crate::textfmt::str_contains;

verus! {

/// A compiler release under test, named by its `rustup`-style spec string.
#[derive(Debug)]
pub struct Toolchain {
    spec: String,
}

impl Clone for Toolchain {
    fn clone(&self) -> (r: Toolchain)
        ensures
            r@ == self@,
    {
        Toolchain { spec: self.spec.clone() }
    }
}

impl View for Toolchain {
    type V = Seq<char>;

    closed spec fn view(&self) -> Seq<char> {
        self.spec@
    }
}

impl PartialEq for Toolchain {
    fn eq(&self, other: &Toolchain) -> (r: bool) {
        self.spec == other.spec
    }
}

impl vstd::std_specs::cmp::PartialEqSpecImpl for Toolchain {
    open spec fn obeys_eq_spec() -> bool {
        true
    }

    open spec fn eq_spec(&self, other: &Toolchain) -> bool {
        self@ == other@
    }
}

impl Toolchain {
    pub fn from(s: &str) -> (r: Toolchain)
        ensures
            r@ == s@,
    {
        Toolchain { spec: s.to_owned() }
    }

    /// The spec string the toolchain was created from.
    pub fn as_str(&self) -> (r: &str)
        ensures
            r@ == self@,
    {
        self.spec.as_str()
    }

    /// Process-local directory that builds with this toolchain write to.
    pub fn target_dir(&self) -> (r: String)
        ensures
            r@ == "/tmp/target-"@ + self@,
    {
        let mut dir = "/tmp/target-".to_owned();
        dir.append(self.spec.as_str());
        dir
    }
}

/// What the toolchain manager's install attempt amounted to.
///
/// "No such release" is distinguished from every other failure: release
/// cadence is outside this system's control, so a missing release is a skip,
/// not an error.
#[derive(Debug, Clone, PartialEq, Eq, Structural)]
pub enum InstallOutcome {
    Installed,
    NoSuchRelease,
    Failed,
}

/// Classifies the exit of an external `toolchain install` command from its
/// success flag and captured standard error, as the install contract demands:
/// an unsuccessful exit whose diagnostics mention a missing release is a
/// skippable condition, any other unsuccessful exit is a genuine failure.
pub fn classify_install_output(success: bool, stderr: &str) -> (r: InstallOutcome)
    ensures
        success ==> r == InstallOutcome::Installed,
        !success && contains_no_release_notice(stderr@) ==> r == InstallOutcome::NoSuchRelease,
        !success && !contains_no_release_notice(stderr@) ==> r == InstallOutcome::Failed,
{
    if success {
        InstallOutcome::Installed
    } else if str_contains(stderr, "no release found") {
        InstallOutcome::NoSuchRelease
    } else {
        InstallOutcome::Failed
    }
}

/// Whether install diagnostics carry the toolchain manager's marker for a
/// release that does not exist.
pub open spec fn contains_no_release_notice(stderr: Seq<char>) -> bool {
    crate::textfmt::contains_seq(stderr, "no release found"@)
}

/// Records that a toolchain was installed by this process rather than found
/// already present, so the embedder knows to uninstall it and remove its
/// target directory when the batch is over.
pub struct InstallGuard {
    installed: Toolchain,
}

impl View for InstallGuard {
    type V = Seq<char>;

    closed spec fn view(&self) -> Seq<char> {
        self.installed@
    }
}

impl InstallGuard {
    pub fn new(toolchain: Toolchain) -> (r: InstallGuard)
        ensures
            r@ == toolchain@,
    {
        InstallGuard { installed: toolchain }
    }

    /// The toolchain to clean up.
    pub fn toolchain(&self) -> (r: &Toolchain)
        ensures
            r@ == self@,
    {
        &self.installed
    }
}

} // verus!
