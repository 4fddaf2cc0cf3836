//! Installing the udev rule that opens the sysfs attributes to the user.

use vstd::prelude::*;

use crate::sysfs::{Error, ErrorKind};

verus! {

/// Where the udev rule is installed.
pub open spec fn udev_rule_dest() -> Seq<char> {
    "/etc/udev/rules.d/50-xone-tray.rules"@
}

/// The shell command, run with administrator rights, that copies the rule
/// from `tmp` into place and makes udev apply it.
pub open spec fn install_command(tmp: Seq<char>) -> Seq<char> {
    "cp '"@ + tmp + "' '"@ + udev_rule_dest() + "' && udevadm control --reload-rules && udevadm trigger"@
}

/// The install command for a rule written to `tmp`.
pub fn install_script(tmp: &str) -> (r: String)
    ensures
        r@ == install_command(tmp@),
{
    let mut s = String::from_str("cp '");
    s.append(tmp);
    s.append("' '");
    s.append("/etc/udev/rules.d/50-xone-tray.rules");
    s.append("' && udevadm control --reload-rules && udevadm trigger");
    assert(s@ =~= install_command(tmp@));
    s
}

/// Whether `r` is the error reported when the privileged command failed
/// or was cancelled.
pub open spec fn is_install_refused(r: Result<(), Error>) -> bool {
    r matches Err(e) && e.kind == ErrorKind::PermissionDenied && e.message@
        == "pkexec failed or was cancelled"@
}

/// The outcome of the installation, from whether the privileged command
/// exited successfully.
pub fn install_outcome(success: bool) -> (r: Result<(), Error>)
    ensures
        success ==> r is Ok,
        !success ==> is_install_refused(r),
{
    if success {
        Ok(())
    } else {
        Err(
            Error {
                kind: ErrorKind::PermissionDenied,
                message: String::from_str("pkexec failed or was cancelled"),
            },
        )
    }
}

} // verus!
