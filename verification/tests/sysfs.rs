use xone_tray::sysfs::{
    brightness_or_default, choose_led_name, dongle_base, first_dongle, led_effect_writes,
    led_level_writes, led_name_matches, led_off_writes, led_solid_writes, leds_base, mode_write,
    parse_active_clients, parse_mode, parse_pairing, power_off_write, require_dongle,
    select_leds, set_pairing_write, Attr, Write, LED_BLINK_NORMAL, LED_BRIGHTNESS_DEFAULT,
    LED_CUSTOM_MODE,
};
use xone_tray::text::decimal_string;
use xone_tray::{not_found, ErrorKind};

fn plan(ws: &[Write]) -> Vec<(Attr, String)> {
    ws.iter().map(|w| (w.attr, w.value.clone())).collect()
}

#[test]
fn test_sysfs_layer() {
    // Pairing
    assert!(!parse_pairing("0\n"), "should be off initially");
    let on = set_pairing_write(true);
    assert_eq!((on.attr, on.value.as_str()), (Attr::Pairing, "1"));
    assert_eq!(on.attr.file_name(), "pairing");
    let off = set_pairing_write(false);
    assert_eq!(off.value.trim(), "0");

    // Active clients
    assert_eq!(
        parse_active_clients("Active clients: 2\n[00]*\t[08]\n[01]\t[09]\n").unwrap(),
        2
    );

    // Power off
    let all = power_off_write(-1);
    assert_eq!((all.attr, all.value.as_str()), (Attr::Poweroff, "-1"));
    assert_eq!(all.attr.file_name(), "poweroff");

    // LED
    let found = select_leds(&vec![Some("gip0.0:white:status".to_string())]);
    assert_eq!(found.len(), 1);
    assert_eq!(
        choose_led_name(
            &vec!["Microsoft Xbox Controller\n".to_string()],
            &vec![],
            "gip0.0:white:status"
        ),
        "Microsoft Xbox Controller"
    );
    assert_eq!(brightness_or_default(Some("50\n")), 50);

    assert_eq!(plan(&led_off_writes()), vec![(Attr::Mode, "0".to_string())]);

    let solid = led_solid_writes(25);
    assert_eq!(
        plan(&solid),
        vec![(Attr::Mode, "1".to_string()), (Attr::Brightness, "25".to_string())]
    );

    // The effect keeps the brightness that was written before.
    let effect = led_effect_writes(LED_BLINK_NORMAL, Some(&solid[1].value));
    assert_eq!(effect[0].value.trim(), LED_BLINK_NORMAL.to_string());
    assert_eq!(effect[1].value.trim(), "25");
}

#[test]
fn pairing_text_is_read_by_its_trimmed_value() {
    assert!(parse_pairing("1\n"));
    assert!(parse_pairing(" 1 "));
    assert!(!parse_pairing("10"));
    assert!(!parse_pairing(""));
    assert!(!parse_pairing("on"));
}

#[test]
fn pairing_write_reads_back() {
    for enabled in [true, false] {
        let w = set_pairing_write(enabled);
        assert_eq!(parse_pairing(&w.value), enabled);
        assert_eq!(parse_pairing(&format!("{}\n", w.value)), enabled);
    }
}

#[test]
fn active_clients_formats() {
    assert_eq!(parse_active_clients("Active clients: 3\r\n[00]").unwrap(), 3);
    assert_eq!(parse_active_clients("Active clients: 5").unwrap(), 5);
    assert_eq!(parse_active_clients("Active clients: +4\n").unwrap(), 4);
    for bad in [
        "",
        "Active clients: 2 \n",
        "active clients: 2\n",
        "Active clients:\n",
        "\nActive clients: 2\n",
        "Active clients: 99999999999\n",
    ] {
        let e = parse_active_clients(bad).unwrap_err();
        assert_eq!(e.kind, ErrorKind::InvalidData);
        assert_eq!(e.message, "unexpected active_clients format");
    }
}

#[test]
fn active_clients_reads_what_the_driver_prints() {
    for n in [0u32, 1, 16, 4_000_000_000] {
        let text = format!("Active clients: {}\n[00]*\t[08]\n", decimal_string(n));
        assert_eq!(parse_active_clients(&text).unwrap(), n);
    }
}

#[test]
fn power_off_texts() {
    assert_eq!(power_off_write(3).value, "3");
    assert_eq!(power_off_write(0).value, "0");
    assert_eq!(power_off_write(i32::MIN).value, i32::MIN.to_string());
}

#[test]
fn led_entries_are_selected_by_prefix() {
    let names = vec![
        Some("gip0.0:white:status".to_string()),
        Some("input3::capslock".to_string()),
        None,
        Some("gi".to_string()),
        Some("gip1.0:white:status".to_string()),
    ];
    assert_eq!(select_leds(&names), vec![0, 4]);
    assert!(led_name_matches("gip"));
    assert!(!led_name_matches("Gip0"));
    assert!(select_leds(&vec![]).is_empty());
}

#[test]
fn led_name_falls_back_in_order() {
    let dir = "gip0.0:white:status";
    assert_eq!(
        choose_led_name(&vec![" \n".to_string(), "Pad\n".to_string()], &vec![], dir),
        "Pad"
    );
    assert_eq!(
        choose_led_name(&vec!["\n".to_string()], &vec!["  Model X ".to_string()], dir),
        "Model X"
    );
    assert_eq!(choose_led_name(&vec![], &vec!["".to_string()], dir), dir);
}

#[test]
fn brightness_defaults() {
    assert_eq!(brightness_or_default(None), LED_BRIGHTNESS_DEFAULT);
    assert_eq!(brightness_or_default(Some("abc")), 20);
    assert_eq!(brightness_or_default(Some(" 7 \n")), 7);
    assert_eq!(
        led_effect_writes(4, None)[1].value,
        LED_BRIGHTNESS_DEFAULT.to_string()
    );
    assert_eq!(parse_mode("2\n"), Some(2));
    assert_eq!(parse_mode("x"), None);
}

#[test]
fn menu_level_writes() {
    assert_eq!(
        plan(&led_level_writes(12, true, Some(1))),
        vec![(Attr::Mode, "2".to_string()), (Attr::Brightness, "12".to_string())]
    );
    assert_eq!(
        plan(&led_level_writes(12, true, None)),
        vec![(Attr::Mode, "2".to_string()), (Attr::Brightness, "12".to_string())]
    );
    assert_eq!(
        plan(&led_level_writes(12, true, Some(LED_CUSTOM_MODE))),
        vec![(Attr::Brightness, "12".to_string())]
    );
    assert_eq!(
        plan(&led_level_writes(0, false, Some(1))),
        vec![(Attr::Brightness, "0".to_string())]
    );
    assert_eq!(mode_write(4).attr.file_name(), "mode");
    assert_eq!(led_level_writes(1, false, None)[0].attr.file_name(), "brightness");
}

#[test]
fn dongle_selection() {
    assert_eq!(first_dongle(&vec![false, true, true]), Some(1));
    assert_eq!(first_dongle(&vec![false, false]), None);
    assert_eq!(require_dongle(Some(5)).unwrap(), 5);
    let e = require_dongle::<u8>(None).unwrap_err();
    assert_eq!(e.kind, ErrorKind::NotFound);
    assert_eq!(e.message, "no xone dongle");
    let e = not_found("gone");
    assert_eq!((e.kind, e.message.as_str()), (ErrorKind::NotFound, "gone"));
}

#[test]
fn base_directories() {
    assert_eq!(dongle_base(None), "/sys/bus/usb/drivers/xone-dongle");
    assert_eq!(dongle_base(Some("/tmp/d".to_string())), "/tmp/d");
    assert_eq!(leds_base(None), "/sys/class/leds");
    assert_eq!(leds_base(Some("/tmp/l".to_string())), "/tmp/l");
}
