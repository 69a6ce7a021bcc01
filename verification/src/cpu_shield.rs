//! CPU-isolation ("shield") configuration.
//!
//! A shield spec names a CPU mask to reserve and whether kernel threads are
//! moved off it.  The shield itself is configured and torn down by an
//! external tool; this module holds the spec and derives the exact command
//! lines that bracket an isolated run, so the embedder only executes them.

use vstd::prelude::*;
use vstd::string::StringExecFns;

verus! {

/// A CPU set reserved for one low-variance measurement.
#[derive(Debug)]
pub struct ShieldSpec {
    cpu_mask: String,
    kthread_on: bool,
}

impl Clone for ShieldSpec {
    fn clone(&self) -> (r: ShieldSpec)
        ensures
            r@ == self@,
    {
        ShieldSpec { cpu_mask: self.cpu_mask.clone(), kthread_on: self.kthread_on }
    }
}

/// The shield spec's two configuration values.
pub struct ShieldSpecV {
    pub cpu_mask: Seq<char>,
    pub kthread_on: bool,
}

impl View for ShieldSpec {
    type V = ShieldSpecV;

    closed spec fn view(&self) -> ShieldSpecV {
        ShieldSpecV { cpu_mask: self.cpu_mask@, kthread_on: self.kthread_on }
    }
}

impl PartialEq for ShieldSpec {
    fn eq(&self, other: &ShieldSpec) -> (r: bool) {
        self.cpu_mask == other.cpu_mask && self.kthread_on == other.kthread_on
    }
}

impl vstd::std_specs::cmp::PartialEqSpecImpl for ShieldSpec {
    open spec fn obeys_eq_spec() -> bool {
        true
    }

    open spec fn eq_spec(&self, other: &ShieldSpec) -> bool {
        self@.cpu_mask == other@.cpu_mask && self@.kthread_on == other@.kthread_on
    }
}

impl ShieldSpec {
    pub fn new(cpu_mask: String, kthread_on: bool) -> (r: Result<ShieldSpec, String>)
        ensures
            r is Ok,
            r matches Ok(s) ==> s@.cpu_mask == cpu_mask@ && s@.kthread_on == kthread_on,
    {
        Ok(ShieldSpec { cpu_mask, kthread_on })
    }

    /// The reserved CPU mask.
    pub fn cpu_mask(&self) -> (r: &str)
        ensures
            r@ == self@.cpu_mask,
    {
        self.cpu_mask.as_str()
    }

    /// Whether kernel threads are moved off the reserved CPUs.
    pub fn kthread_on(&self) -> (r: bool)
        ensures
            r == self@.kthread_on,
    {
        self.kthread_on
    }

    /// Arguments of the privileged command that sets the shield up:
    /// `cset shield --cpu=<mask>` with `--kthread=on` appended when kernel
    /// threads are to be moved.
    pub fn create_args(&self) -> (r: Vec<String>)
        ensures
            r@.len() == (if self@.kthread_on {
                4int
            } else {
                3int
            }),
            r@[0]@ == "cset"@,
            r@[1]@ == "shield"@,
            r@[2]@ == "--cpu="@ + self@.cpu_mask,
            self@.kthread_on ==> r@[3]@ == "--kthread=on"@,
    {
        let mut args: Vec<String> = Vec::new();
        args.push("cset".to_owned());
        args.push("shield".to_owned());
        let mut cpu = "--cpu=".to_owned();
        cpu.append(self.cpu_mask.as_str());
        args.push(cpu);
        if self.kthread_on {
            args.push("--kthread=on".to_owned());
        }
        args
    }
}

/// Arguments of the privileged command that tears the shield down:
/// `cset shield --reset`.
pub fn shield_reset_args() -> (r: Vec<String>)
    ensures
        r@.len() == 3,
        r@[0]@ == "cset"@,
        r@[1]@ == "shield"@,
        r@[2]@ == "--reset"@,
{
    let mut args: Vec<String> = Vec::new();
    args.push("cset".to_owned());
    args.push("shield".to_owned());
    args.push("--reset".to_owned());
    args
}

/// Program and leading arguments that run `cmd` inside the active shield:
/// `cset sh <cmd>`.
pub fn shielded_invocation(cmd: &str) -> (r: Vec<String>)
    ensures
        r@.len() == 3,
        r@[0]@ == "cset"@,
        r@[1]@ == "sh"@,
        r@[2]@ == cmd@,
{
    let mut args: Vec<String> = Vec::new();
    args.push("cset".to_owned());
    args.push("sh".to_owned());
    args.push(cmd.to_owned());
    args
}

} // verus!
