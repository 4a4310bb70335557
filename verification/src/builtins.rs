//! Commands that the shell carries out itself.

use vstd::prelude::*;
use crate::strings::str_eq;

verus! {

/// A command that the shell carries out itself instead of starting a program.
#[derive(Clone, Copy, Debug, PartialEq, Eq, Structural)]
pub enum Builtin {
    /// `cd [dir]`: change the working directory.
    ChangeDir,
}

/// The builtin that a command name denotes, if any: `cd` changes the directory.
pub fn runner(cmd: &str) -> (r: Option<Builtin>)
    ensures
        r == if cmd@ == "cd"@ {
            Some(Builtin::ChangeDir)
        } else {
            None::<Builtin>
        },
{
    if str_eq(cmd, "cd") {
        Some(Builtin::ChangeDir)
    } else {
        None
    }
}

} // verus!
