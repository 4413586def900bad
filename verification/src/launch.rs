//! Composing the shell command that launches an entry detached.
//!
//! The launcher runs the chosen command through a shell, in a fresh
//! session, with its output discarded, without waiting for it. The
//! spawning itself is input/output and lives outside the library; what
//! is verified here is the exact command line handed to the shell.

use vstd::prelude::*;

verus! {

/// The bytes of `setsid `, which puts the command into a fresh session.
pub open spec fn detach_prefix() -> Seq<u8> {
    seq![115u8, 101u8, 116u8, 115u8, 105u8, 100u8, 32u8]
}

/// The bytes of ` > /dev/null 2>&1 &`, which discard the command's
/// output and run it in the background.
pub open spec fn detach_suffix() -> Seq<u8> {
    seq![32u8, 62u8, 32u8, 47u8, 100u8, 101u8, 118u8, 47u8, 110u8, 117u8, 108u8, 108u8, 32u8, 50u8, 62u8, 38u8, 49u8, 32u8, 38u8]
}

/// The shell command that runs `cmd` detached: `cmd` wrapped between
/// the session prefix and the discard-and-background suffix.
pub open spec fn spec_detached_command(cmd: Seq<u8>) -> Seq<u8> {
    detach_prefix() + cmd + detach_suffix()
}

/// Composes the shell command that runs `cmd` detached.
pub fn detached_command(cmd: &Vec<u8>) -> (r: Vec<u8>)
    ensures
        r@ == spec_detached_command(cmd@),
{
    let mut v: Vec<u8> = Vec::new();
    v.push(115);
    v.push(101);
    v.push(116);
    v.push(115);
    v.push(105);
    v.push(100);
    v.push(32);
    v.extend_from_slice(cmd.as_slice());
    v.push(32);
    v.push(62);
    v.push(32);
    v.push(47);
    v.push(100);
    v.push(101);
    v.push(118);
    v.push(47);
    v.push(110);
    v.push(117);
    v.push(108);
    v.push(108);
    v.push(32);
    v.push(50);
    v.push(62);
    v.push(38);
    v.push(49);
    v.push(32);
    v.push(38);
    proof {
        assert(v@ =~= spec_detached_command(cmd@));
    }
    v
}

} // verus!
