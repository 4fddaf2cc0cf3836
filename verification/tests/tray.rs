use xone_tray::tray::{level_brightness, Action, Led, LedLevel, MenuItem, Snapshot, SubItem};
use xone_tray::XoneTray;

fn led(path: &str, name: &str) -> Led {
    Led { path: path.to_string(), name: name.to_string() }
}

fn snapshot(can_write: bool, pairing: Option<bool>, clients: Option<u32>, leds: Vec<Led>) -> Snapshot {
    Snapshot { can_write, pairing, clients, leds }
}

#[test]
fn new_starts_from_a_snapshot() {
    let t = XoneTray::new(snapshot(true, Some(true), Some(2), vec![]));
    assert!(t.pairing && t.can_write);
    assert_eq!(t.clients, 2);
    let t = XoneTray::new(snapshot(false, None, None, vec![]));
    assert!(!t.pairing && !t.can_write);
    assert_eq!(t.clients, 0);
}

#[test]
fn refresh_keeps_values_that_could_not_be_read() {
    let mut t = XoneTray::new(snapshot(true, Some(true), Some(3), vec![led("/l/gip0", "gip0")]));
    t.refresh(snapshot(false, None, None, vec![]));
    assert!(t.pairing);
    assert_eq!(t.clients, 3);
    assert!(!t.can_write);
    assert!(t.leds.is_empty());
    t.refresh(snapshot(true, Some(false), Some(0), vec![]));
    assert!(!t.pairing);
    assert_eq!(t.clients, 0);
}

#[test]
fn pairing_follows_successful_writes_only() {
    let mut t = XoneTray::new(snapshot(true, Some(false), Some(1), vec![]));
    let target = t.pairing_target();
    assert!(target);
    t.pairing_written(target, false);
    assert!(!t.pairing);
    t.pairing_written(target, true);
    assert!(t.pairing);
    let back = t.pairing_target();
    t.pairing_written(back, true);
    assert!(!t.pairing);
}

#[test]
fn title_and_identity() {
    let t = XoneTray::new(snapshot(true, Some(true), Some(2), vec![]));
    assert_eq!(t.title(), "xone - pairing ON | 2 connected");
    let t = XoneTray::new(snapshot(true, Some(false), Some(0), vec![]));
    assert_eq!(t.title(), "xone - pairing off | 0 connected");
    assert_eq!(t.id(), "xone-tray");
    assert_eq!(t.icon_name(), "input-gaming");
}

#[test]
fn level_brightness_values() {
    assert_eq!(level_brightness(LedLevel::Off, 50), 0);
    assert_eq!(level_brightness(LedLevel::Low, 50), 12);
    assert_eq!(level_brightness(LedLevel::Medium, 50), 25);
    assert_eq!(level_brightness(LedLevel::High, 50), 37);
    assert_eq!(level_brightness(LedLevel::Low, 2), 1);
    assert_eq!(level_brightness(LedLevel::Medium, 1), 1);
    assert_eq!(level_brightness(LedLevel::High, 1), 0);
    assert_eq!(level_brightness(LedLevel::High, u32::MAX), 3_221_225_471);
    assert_eq!(level_brightness(LedLevel::Low, u32::MAX), u32::MAX / 4);
    for max in [0u32, 1, 3, 20, 255, u32::MAX / 3, u32::MAX] {
        assert!(4 * (level_brightness(LedLevel::High, max) as u64) <= 3 * max as u64);
    }
}

fn entry_label(item: &SubItem) -> &str {
    match item {
        SubItem::Entry(e) => &e.label,
        SubItem::SubMenu { label, .. } => label,
    }
}

#[test]
fn full_menu_when_not_writable() {
    let t = XoneTray::new(snapshot(
        false,
        Some(true),
        Some(2),
        vec![led("/sys/class/leds/gip0.0:white:status", "gip0.0:white:status")],
    ));
    let items = t.menu(&vec![50]);
    assert_eq!(items.len(), 8);
    match &items[0] {
        MenuItem::Checkmark { label, enabled, checked, action } => {
            assert_eq!(label, "Pairing Mode");
            assert!(!enabled && *checked);
            assert!(matches!(action, Action::TogglePairing));
        }
        _ => panic!("pairing checkmark expected"),
    }
    match &items[1] {
        MenuItem::Entry(e) => {
            assert_eq!(e.label, "Connected: 2");
            assert!(!e.enabled && e.action.is_none());
        }
        _ => panic!("count expected"),
    }
    match &items[2] {
        MenuItem::SubMenu { label, items } => {
            assert_eq!(label, "Power off…");
            let labels: Vec<&str> = items.iter().map(entry_label).collect();
            assert_eq!(labels, vec!["All controllers", "Controller 1", "Controller 2"]);
            match &items[2] {
                SubItem::Entry(e) => assert!(matches!(e.action, Some(Action::PowerOff(1)))),
                _ => panic!("entry expected"),
            }
            match &items[0] {
                SubItem::Entry(e) => assert!(matches!(e.action, Some(Action::PowerOff(-1)))),
                _ => panic!("entry expected"),
            }
        }
        _ => panic!("power-off submenu expected"),
    }
    match &items[3] {
        MenuItem::SubMenu { label, items } => {
            assert_eq!(label, "LEDs");
            assert_eq!(items.len(), 1);
            match &items[0] {
                SubItem::SubMenu { label, entries } => {
                    assert_eq!(label, "gip0.0:white:status");
                    let got: Vec<(&str, u32, bool)> = entries
                        .iter()
                        .map(|e| match &e.action {
                            Some(Action::SetLed { path, brightness, custom_mode }) => {
                                assert_eq!(path, "/sys/class/leds/gip0.0:white:status");
                                (e.label.as_str(), *brightness, *custom_mode)
                            }
                            _ => panic!("LED action expected"),
                        })
                        .collect();
                    assert_eq!(
                        got,
                        vec![("Off", 0, false), ("Low", 12, true), ("Medium", 25, true), ("High", 37, true)]
                    );
                }
                _ => panic!("LED submenu expected"),
            }
        }
        _ => panic!("LED menu expected"),
    }
    assert!(matches!(items[4], MenuItem::Separator));
    match &items[5] {
        MenuItem::Entry(e) => {
            assert_eq!(e.label, "Install udev rule (admin)…");
            assert!(matches!(e.action, Some(Action::InstallUdevRule)));
        }
        _ => panic!("installer expected"),
    }
    assert!(matches!(items[6], MenuItem::Separator));
    match &items[7] {
        MenuItem::Entry(e) => {
            assert_eq!(e.label, "Quit");
            assert!(matches!(e.action, Some(Action::Quit)));
        }
        _ => panic!("quit expected"),
    }
}

#[test]
fn minimal_menu_when_nothing_is_connected() {
    let t = XoneTray::new(snapshot(true, Some(false), Some(0), vec![]));
    let items = t.menu(&vec![]);
    assert_eq!(items.len(), 4);
    assert!(matches!(items[2], MenuItem::Separator));
    match &items[1] {
        MenuItem::Entry(e) => assert_eq!(e.label, "Connected: 0"),
        _ => panic!("count expected"),
    }
}

#[test]
fn menu_builds_for_any_max_brightness() {
    let t = XoneTray::new(snapshot(
        true,
        Some(false),
        Some(1),
        vec![led("/l/gip0", "gip0"), led("/l/gip1", "gip1")],
    ));
    let items = t.menu(&vec![u32::MAX, 40]);
    assert_eq!(items.len(), 6);
    match &items[3] {
        MenuItem::SubMenu { items, .. } => {
            let levels: Vec<Vec<u32>> = items
                .iter()
                .map(|s| match s {
                    SubItem::SubMenu { entries, .. } => entries
                        .iter()
                        .map(|e| match &e.action {
                            Some(Action::SetLed { brightness, .. }) => *brightness,
                            _ => panic!("LED action expected"),
                        })
                        .collect(),
                    _ => panic!("LED submenu expected"),
                })
                .collect();
            assert_eq!(
                levels,
                vec![
                    vec![0, u32::MAX / 4, u32::MAX / 2, 3_221_225_471],
                    vec![0, 10, 20, 30]
                ]
            );
        }
        _ => panic!("LED menu expected"),
    }
}

#[test]
fn refresh_period_is_three_seconds() {
    assert_eq!(xone_tray::tray::REFRESH_SECONDS, 3);
}
