use lan_discovery::device_name::{
    sanitize_lan_device_name, select_device_display_name, LAN_DEVICE_NAME_OPTION,
    MAX_DEVICE_NAME_CHARS,
};

#[test]
fn custom_device_name_is_trimmed_filtered_and_bounded() {
    assert_eq!(sanitize_lan_device_name("  Meeting Room  "), "Meeting Room");
    assert_eq!(sanitize_lan_device_name("会议\n室"), "会议室");
    assert_eq!(sanitize_lan_device_name(&"a".repeat(80)).len(), 64);
}

#[test]
fn custom_device_name_overrides_hostname_and_empty_value_restores_it() {
    assert_eq!(
        select_device_display_name("Studio Mac", "host.local"),
        "Studio Mac"
    );
    assert_eq!(select_device_display_name("", "host.local"), "host.local");
    assert_eq!(select_device_display_name("", "\n"), "SubnetDesk");
}

#[test]
fn device_name_option_has_its_key() {
    assert_eq!(LAN_DEVICE_NAME_OPTION, "lan-device-name");
    assert_eq!(MAX_DEVICE_NAME_CHARS, 64);
}

#[test]
fn every_kind_of_white_space_is_trimmed() {
    let spaces = "\u{9}\u{a}\u{b}\u{c}\u{d} \u{85}\u{a0}\u{1680}\u{2000}\u{2001}\u{2002}\u{2003}\
                  \u{2004}\u{2005}\u{2006}\u{2007}\u{2008}\u{2009}\u{200a}\u{2028}\u{2029}\u{202f}\
                  \u{205f}\u{3000}";
    let padded = format!("{spaces}a{spaces}b{spaces}");
    let name = sanitize_lan_device_name(&padded);
    assert!(name.starts_with('a'));
    assert!(name.ends_with('b'));
    assert_eq!(name, padded.trim().chars().filter(|c| !c.is_control()).collect::<String>());
}

#[test]
fn exactly_white_space_and_controls_go_at_the_end() {
    for u in 0..0x11_0000u32 {
        if let Some(c) = char::from_u32(u) {
            let white = matches!(
                u,
                0x9..=0xd
                    | 0x20
                    | 0x85
                    | 0xa0
                    | 0x1680
                    | 0x2000..=0x200a
                    | 0x2028
                    | 0x2029
                    | 0x202f
                    | 0x205f
                    | 0x3000
            );
            let control = matches!(u, 0..=0x1f | 0x7f..=0x9f);
            let goes = sanitize_lan_device_name(&format!("x{c}")) == "x";
            assert_eq!(goes, white || control, "character {u:#x}");
            let goes_inside = sanitize_lan_device_name(&format!("x{c}y")) == "xy";
            assert_eq!(goes_inside, control, "character {u:#x}");
        }
    }
}

#[test]
fn zero_width_characters_are_no_white_space() {
    assert_eq!(sanitize_lan_device_name("\u{200b}a\u{feff}"), "\u{200b}a\u{feff}");
    assert_eq!(sanitize_lan_device_name("\u{180e}"), "\u{180e}");
}

#[test]
fn all_control_characters_are_removed() {
    let mut text = String::from("a");
    for u in (0..0x20u32).chain(0x7f..0xa0) {
        text.push(char::from_u32(u).unwrap());
    }
    text.push('b');
    assert_eq!(sanitize_lan_device_name(&text), "ab");
}

#[test]
fn device_name_is_cut_by_characters_not_bytes() {
    let name = sanitize_lan_device_name(&"室".repeat(80));
    assert_eq!(name.chars().count(), 64);
    assert_eq!(name.len(), 192);
}

#[test]
fn control_characters_do_not_count_towards_the_length() {
    let text = format!("{}{}", "a\u{7}".repeat(64), "b");
    assert_eq!(sanitize_lan_device_name(&text), "a".repeat(64));
}

#[test]
fn white_space_behind_a_control_character_survives_the_first_pass_only() {
    let once = sanitize_lan_device_name("\u{1} a");
    assert_eq!(once, " a");
    assert_eq!(sanitize_lan_device_name(&once), "a");
}

#[test]
fn hostname_is_made_fit_too() {
    assert_eq!(select_device_display_name(" \t ", " ho\u{0}st "), "host");
    assert_eq!(select_device_display_name("\u{1}", "host"), "host");
    assert_eq!(select_device_display_name("", ""), "SubnetDesk");
}
