use xone_tray::udev::{install_outcome, install_script};
use xone_tray::ErrorKind;

#[test]
fn install_script_copies_and_reloads() {
    assert_eq!(
        install_script("/tmp/50-xone-tray.rules.tmp"),
        "cp '/tmp/50-xone-tray.rules.tmp' '/etc/udev/rules.d/50-xone-tray.rules' && udevadm control --reload-rules && udevadm trigger"
    );
}

#[test]
fn install_outcome_follows_exit_status() {
    assert!(install_outcome(true).is_ok());
    let e = install_outcome(false).unwrap_err();
    assert_eq!(e.kind, ErrorKind::PermissionDenied);
    assert_eq!(e.message, "pkexec failed or was cancelled");
}
