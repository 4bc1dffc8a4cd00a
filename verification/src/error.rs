use vstd::prelude::*;

verus! {

/// Typed errors of the namespace subsystem, mirroring the kernel's errno
/// values that the operations here can raise.
#[derive(Clone, Copy, Debug, PartialEq, Eq, Structural)]
pub enum SysError {
    /// Invalid argument: a malformed request (bad requested PID list,
    /// installing a shallower or no-op namespace).
    Einval,
    /// Resource exhaustion: nesting deeper than the level bound, or a
    /// refused resource-accounting reservation.
    Enospc,
    /// Permission denied: a namespace not reachable from the caller's own.
    Eperm,
}

impl SysError {
    /// Stable errno-style name of the error.
    pub fn name(&self) -> (r: &'static str)
        ensures
            *self == SysError::Einval ==> r@ == "EINVAL"@,
            *self == SysError::Enospc ==> r@ == "ENOSPC"@,
            *self == SysError::Eperm ==> r@ == "EPERM"@,
    {
        match self {
            SysError::Einval => "EINVAL",
            SysError::Enospc => "ENOSPC",
            SysError::Eperm => "EPERM",
        }
    }
}

} // verus!
