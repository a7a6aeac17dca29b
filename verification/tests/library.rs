use wsm::commands::{
    applying_message, collect_config, commit_outcome, stages_as_primary, staging_outcome, delete_profile as delete_command, list_profiles as list_command,
    load_profile, monitor_line, save_report, staged_message, staging_failed_message, staging_order,
    CommandError,
};
use wsm::display::{
    display_index, display_index_of_uppercased, friendly_name, get_monitor_model, has_state_flag,
    monitor_config_from_device, settings_unreadable_message, to_wide_null, wide_to_string,
    DisplaySettings,
};
use wsm::profiles::{
    delete_profile, get_profile, list_profiles, load_profiles, save_profile, save_profile_to_file,
    ProfileError, ProfileFormat, Profiles,
};
use wsm::text::parse_u32_chars;
use wsm::types::{Config, MonitorConfig};

fn wide(s: &str) -> Vec<u16> {
    s.encode_utf16().collect()
}

fn monitor(name: &str, friendly: Option<&str>, x: i32, y: i32, w: u32, h: u32, hz: u32, primary: bool) -> MonitorConfig {
    MonitorConfig {
        device_name: name.to_string(),
        friendly_name: friendly.map(|s| s.to_string()),
        position_x: x,
        position_y: y,
        width: w,
        height: h,
        refresh_rate: hz,
        bits_per_pel: 32,
        orientation: 0,
        is_primary: primary,
    }
}

fn office() -> Config {
    Config {
        monitors: vec![
            monitor("\\\\.\\DISPLAY1", Some("Display 1: GS34WQCA"), 0, 0, 3440, 1440, 144, true),
            monitor("\\\\.\\DISPLAY2", Some("Display 2: P2419H"), 3440, 180, 1920, 1080, 60, false),
        ],
    }
}

fn home() -> Config {
    Config { monitors: vec![monitor("\\\\.\\DISPLAY1", Some("Display 1: P2419H"), 0, 0, 1920, 1080, 60, true)] }
}

fn names(c: &Config) -> Vec<String> {
    c.monitors.iter().map(|m| m.device_name.clone()).collect()
}

// ---------------------------------------------------------------- UTF-16

#[test]
fn to_wide_null_appends_terminator() {
    assert_eq!(to_wide_null("AB"), vec![65u16, 66, 0]);
    assert_eq!(to_wide_null(""), vec![0u16]);
}

#[test]
fn to_wide_null_encodes_surrogate_pairs() {
    assert_eq!(to_wide_null("\u{1F600}"), vec![0xD83Du16, 0xDE00, 0]);
    assert_eq!(to_wide_null("é"), vec![0xE9u16, 0]);
}

#[test]
fn wide_to_string_stops_at_nul() {
    let mut w = wide("\\\\.\\DISPLAY1");
    w.push(0);
    w.extend(wide("junk"));
    assert_eq!(wide_to_string(&w), "\\\\.\\DISPLAY1");
}

#[test]
fn wide_to_string_without_nul_takes_everything() {
    assert_eq!(wide_to_string(&wide("abc")), "abc");
    assert_eq!(wide_to_string(&[]), "");
}

#[test]
fn wide_to_string_decodes_pairs_and_replaces_lone_surrogates() {
    assert_eq!(wide_to_string(&[0xD83D, 0xDE00, 0]), "\u{1F600}");
    assert_eq!(wide_to_string(&[0xD83D, 0x41, 0]), "\u{FFFD}A");
    assert_eq!(wide_to_string(&[0xDE00, 0x41]), "\u{FFFD}A");
    assert_eq!(wide_to_string(&[0x41, 0xD83D]), "A\u{FFFD}");
    let w: Vec<u16> = vec![0x41, 0xD800, 0xD800, 0xDC00, 0x42];
    assert_eq!(wide_to_string(&w), String::from_utf16_lossy(&w));
}

#[test]
fn wide_round_trip() {
    for s in ["", "office", "\\\\.\\DISPLAY2", "Bildschirm ä", "\u{1F600} x \u{10FFFF}"] {
        assert_eq!(wide_to_string(&to_wide_null(s)), s);
    }
}

// ---------------------------------------------------------------- display index

#[test]
fn display_index_of_adapter_names() {
    assert_eq!(display_index("\\\\.\\DISPLAY3"), Some(3));
    assert_eq!(display_index("\\\\.\\DISPLAY12"), Some(12));
    assert_eq!(display_index("\\\\.\\display7"), Some(7));
}

#[test]
fn display_index_edge_cases() {
    assert_eq!(display_index("no number"), None);
    assert_eq!(display_index("42"), Some(42));
    assert_eq!(display_index("DISPLAY"), None);
    assert_eq!(display_index("DISPLAY+5"), Some(5));
    assert_eq!(display_index("DISPLAY-5"), None);
    assert_eq!(display_index("DISPLAY4294967295"), Some(4294967295));
    assert_eq!(display_index("DISPLAY4294967296"), None);
    assert_eq!(display_index("DISPLAY1DISPLAY2"), Some(2));
    assert_eq!(display_index("DISPLAY1 "), None);
}

#[test]
fn display_index_of_uppercased_does_not_fold_case() {
    assert_eq!(display_index_of_uppercased("\\\\.\\DISPLAY3"), Some(3));
    assert_eq!(display_index_of_uppercased("\\\\.\\display3"), None);
}

#[test]
fn parse_u32_chars_follows_std() {
    for s in ["", "+", "0", "007", "+12", "-1", "12a", "4294967295", "4294967296", "99999999999999999999"] {
        let chars: Vec<char> = s.chars().collect();
        assert_eq!(parse_u32_chars(&chars), s.parse::<u32>().ok(), "input {:?}", s);
    }
}

// ---------------------------------------------------------------- monitor model and names

#[test]
fn monitor_model_is_second_field() {
    let mut id = wide("MONITOR\\GS34WQCA\\{4d36e96e-e325-11ce-bfc1-08002be10318}\\0041");
    id.push(0);
    assert_eq!(get_monitor_model(&id), Some("GS34WQCA".to_string()));
}

#[test]
fn monitor_model_missing_or_empty() {
    assert_eq!(get_monitor_model(&wide("MONITOR")), None);
    assert_eq!(get_monitor_model(&wide("MONITOR\\\\x")), None);
    assert_eq!(get_monitor_model(&wide("MONITOR\\ABC")), Some("ABC".to_string()));
    assert_eq!(get_monitor_model(&[0u16, 65, 92, 66]), None);
}

#[test]
fn friendly_name_combinations() {
    assert_eq!(friendly_name(Some(1), Some("GS34WQCA".to_string())), Some("Display 1: GS34WQCA".to_string()));
    assert_eq!(friendly_name(Some(12), None), Some("Display 12".to_string()));
    assert_eq!(friendly_name(None, Some("P2419H".to_string())), Some("P2419H".to_string()));
    assert_eq!(friendly_name(None, None), None);
}

#[test]
fn monitor_config_from_device_builds_record() {
    let mut name = wide("\\\\.\\DISPLAY2");
    name.push(0);
    name.extend([7u16, 7, 7]);
    let mut id = wide("MONITOR\\P2419H\\{guid}\\0001");
    id.push(0);
    let settings = DisplaySettings {
        position_x: 3440,
        position_y: 180,
        width: 1920,
        height: 1080,
        refresh_rate: 60,
        bits_per_pel: 32,
        orientation: 1,
    };
    let m = monitor_config_from_device(&name, Some(&id), &settings, false);
    assert_eq!(m.device_name, "\\\\.\\DISPLAY2");
    assert_eq!(m.friendly_name, Some("Display 2: P2419H".to_string()));
    assert_eq!((m.position_x, m.position_y, m.width, m.height), (3440, 180, 1920, 1080));
    assert_eq!((m.refresh_rate, m.bits_per_pel, m.orientation, m.is_primary), (60, 32, 1, false));
    let m = monitor_config_from_device(&name, None, &settings, true);
    assert_eq!(m.friendly_name, Some("Display 2".to_string()));
    assert!(m.is_primary);
}

// ---------------------------------------------------------------- the store

#[test]
fn empty_store() {
    let p = Profiles::new();
    assert!(p.is_empty());
    assert_eq!(p.len(), 0);
    assert!(p.get("office").is_none());
    assert!(p.entries().is_empty());
}

#[test]
fn get_after_save_returns_saved_config() {
    let mut p = Profiles::new();
    save_profile(&mut p, "office", office());
    let c = get_profile(&p, "office").unwrap();
    assert_eq!(names(&c), names(&office()));
    assert_eq!(p.len(), 1);
}

#[test]
fn save_keeps_other_profiles() {
    let mut p = Profiles::new();
    save_profile(&mut p, "office", office());
    save_profile(&mut p, "home", home());
    assert_eq!(get_profile(&p, "office").unwrap().monitors.len(), 2);
    assert_eq!(get_profile(&p, "home").unwrap().monitors.len(), 1);
    assert_eq!(p.len(), 2);
}

#[test]
fn save_overwrites_same_alias() {
    let mut p = Profiles::new();
    save_profile(&mut p, "office", office());
    save_profile(&mut p, "office", home());
    assert_eq!(p.len(), 1);
    assert_eq!(get_profile(&p, "office").unwrap().monitors.len(), 1);
}

fn aliases(p: &Profiles) -> Vec<String> {
    p.entries().iter().map(|e| e.0.clone()).collect()
}

#[test]
fn entries_keep_save_order() {
    let mut p = Profiles::new();
    for alias in ["office", "home", "b", "a", "zz", "Office", "é", "ab"] {
        save_profile(&mut p, alias, home());
    }
    assert_eq!(aliases(&p), vec!["office", "home", "b", "a", "zz", "Office", "é", "ab"]);
}

#[test]
fn resave_keeps_place() {
    let mut p = Profiles::new();
    save_profile(&mut p, "office", office());
    save_profile(&mut p, "home", home());
    save_profile(&mut p, "office", home());
    assert_eq!(aliases(&p), vec!["office", "home"]);
    assert_eq!(get_profile(&p, "office").unwrap().monitors.len(), 1);
}

#[test]
fn delete_keeps_order_of_others() {
    let mut p = Profiles::new();
    for alias in ["c", "a", "b", "d"] {
        save_profile(&mut p, alias, home());
    }
    delete_profile(&mut p, "a").unwrap();
    assert_eq!(aliases(&p), vec!["c", "b", "d"]);
}

#[test]
fn delete_then_get_is_not_found() {
    let mut p = Profiles::new();
    save_profile(&mut p, "office", office());
    save_profile(&mut p, "home", home());
    assert!(delete_profile(&mut p, "office").is_ok());
    match get_profile(&p, "office") {
        Err(e) => assert_eq!(e.message(), "Profile 'office' not found"),
        Ok(_) => panic!("deleted profile still found"),
    }
    assert_eq!(p.len(), 1);
    assert!(p.get("home").is_some());
}

#[test]
fn delete_undoes_save_of_new_alias() {
    let mut p = Profiles::new();
    save_profile(&mut p, "home", home());
    save_profile(&mut p, "office", office());
    delete_profile(&mut p, "office").unwrap();
    assert_eq!(aliases(&p), vec!["home".to_string()]);
}

#[test]
fn delete_missing_is_not_found_and_changes_nothing() {
    let mut p = Profiles::new();
    save_profile(&mut p, "home", home());
    match delete_profile(&mut p, "office") {
        Err(ProfileError::NotFound { alias }) => assert_eq!(alias, "office"),
        _ => panic!("expected NotFound"),
    }
    assert_eq!(p.len(), 1);
}

#[test]
fn remove_gives_back_config() {
    let mut p = Profiles::new();
    p.insert("office".to_string(), office());
    let c = p.remove("office").unwrap();
    assert_eq!(c.monitors.len(), 2);
    assert!(p.remove("office").is_none());
}

#[test]
fn load_and_list_default_to_empty() {
    assert!(load_profiles(None).is_empty());
    assert!(list_profiles(None).is_empty());
    let mut p = Profiles::new();
    save_profile(&mut p, "home", home());
    assert_eq!(load_profiles(Some(p)).len(), 1);
}

#[test]
fn save_profile_to_file_inserts_into_existing() {
    let fresh = save_profile_to_file(None, "office", office());
    assert_eq!(fresh.len(), 1);
    let mut p = Profiles::new();
    save_profile(&mut p, "home", home());
    let both = save_profile_to_file(Some(p), "office", office());
    assert_eq!(both.len(), 2);
    assert_eq!(get_profile(&both, "office").unwrap().monitors.len(), 2);
}

#[test]
fn format_for_extension() {
    assert_eq!(ProfileFormat::for_extension("json"), ProfileFormat::Json);
    assert_eq!(ProfileFormat::for_extension("JSON"), ProfileFormat::Json);
    assert_eq!(ProfileFormat::for_extension("Json"), ProfileFormat::Json);
    assert_eq!(ProfileFormat::for_extension("yaml"), ProfileFormat::Yaml);
    assert_eq!(ProfileFormat::for_extension(""), ProfileFormat::Yaml);
    assert_eq!(ProfileFormat::for_extension("jsonx"), ProfileFormat::Yaml);
}

#[test]
fn format_for_lowercase_extension_is_exact() {
    assert_eq!(ProfileFormat::for_lowercase_extension("json"), ProfileFormat::Json);
    assert_eq!(ProfileFormat::for_lowercase_extension("JSON"), ProfileFormat::Yaml);
    assert_eq!(ProfileFormat::for_lowercase_extension("yml"), ProfileFormat::Yaml);
}

#[test]
fn format_for_flag_and_label() {
    assert_eq!(ProfileFormat::for_json_flag(true), ProfileFormat::Json);
    assert_eq!(ProfileFormat::for_json_flag(false), ProfileFormat::Yaml);
    assert_eq!(ProfileFormat::Json.label(), "JSON");
    assert_eq!(ProfileFormat::Yaml.label(), "YAML");
}

// ---------------------------------------------------------------- commands

#[test]
fn monitor_line_matches_readme() {
    let c = office();
    assert_eq!(
        monitor_line(&c.monitors[0], 2),
        "  Display 1: GS34WQCA                     3440x1440 @ 144Hz  pos (    0,     0)  primary: true"
    );
    assert_eq!(
        monitor_line(&c.monitors[1], 2),
        "  Display 2: P2419H                       1920x1080 @  60Hz  pos ( 3440,   180)  primary: false"
    );
}

#[test]
fn monitor_line_matches_std_formatting() {
    let ms = vec![
        monitor("\\\\.\\DISPLAY9", None, -1920, -123456, 800, 600, 75, false),
        monitor("x", Some("a label that is longer than forty characters, surely"), i32::MIN, i32::MAX, 1, 2, 3, true),
        monitor("x", Some("Bildschirm ä"), 5, -5, 0, 0, 0, false),
        monitor("x", Some("exactly thirty-nine characters long ..."), 5, -5, 0, 0, 1234, false),
    ];
    for m in &ms {
        let label = m.friendly_name.as_deref().unwrap_or(&m.device_name);
        let expected = format!(
            "    {:<39} {}x{} @ {:>3}Hz  pos ({:>5}, {:>5})  primary: {}",
            label, m.width, m.height, m.refresh_rate, m.position_x, m.position_y, m.is_primary
        );
        assert_eq!(monitor_line(m, 4), expected);
    }
}

#[test]
fn collect_config_needs_monitors() {
    match collect_config(vec![]) {
        Err(e) => assert_eq!(e.message(), "No active monitors found."),
        Ok(_) => panic!("empty config accepted"),
    }
    let c = collect_config(office().monitors).unwrap();
    assert_eq!(c.monitors.len(), 2);
}

#[test]
fn save_report_lines() {
    let lines = save_report("office", None, ProfileFormat::Yaml, &office());
    assert_eq!(lines.len(), 3);
    assert_eq!(lines[0], "Saved 2 monitor(s) to profile 'office' in ~/.wsm-profiles (YAML)");
    assert_eq!(lines[1], monitor_line(&office().monitors[0], 2));
    let lines = save_report("office", Some("my-config.json"), ProfileFormat::Json, &office());
    assert_eq!(lines[0], "Saved 2 monitor(s) to profile 'office' in my-config.json (JSON)");
}

#[test]
fn load_profile_errors_name_the_source() {
    let mut p = Profiles::new();
    save_profile(&mut p, "office", office());
    assert_eq!(load_profile(&p, "office", None).unwrap().monitors.len(), 2);
    match load_profile(&p, "home", Some("my-config.yaml")) {
        Err(e) => assert_eq!(e.message(), "Profile 'home' not found in my-config.yaml"),
        Ok(_) => panic!("missing profile found"),
    }
    match load_profile(&p, "home", None) {
        Err(e) => assert_eq!(e.message(), "Profile 'home' not found"),
        Ok(_) => panic!("missing profile found"),
    }
}

#[test]
fn applying_message_text() {
    assert_eq!(applying_message("office", &office()), "Applying 2 monitor configuration(s) from profile 'office'...");
}

#[test]
fn staging_order_puts_primary_first_and_keeps_order() {
    let c = Config {
        monitors: vec![
            monitor("a", None, 0, 0, 1, 1, 1, false),
            monitor("b", None, 0, 0, 1, 1, 1, true),
            monitor("c", None, 0, 0, 1, 1, 1, false),
            monitor("d", None, 0, 0, 1, 1, 1, true),
        ],
    };
    let order = staging_order(&c);
    let got: Vec<String> = order.iter().map(|m| m.device_name.clone()).collect();
    let mut expected = c.monitors.clone();
    expected.sort_by_key(|m| !m.is_primary);
    let want: Vec<String> = expected.iter().map(|m| m.device_name.clone()).collect();
    assert_eq!(got, want);
    assert_eq!(got, vec!["b", "d", "a", "c"]);
}

#[test]
fn staging_messages() {
    let c = office();
    assert_eq!(staged_message(&c.monitors[0]), "  Display 1: GS34WQCA — 3440x1440 @ 144Hz staged OK");
    assert_eq!(staging_failed_message(&c.monitors[1], -2), "  Warning: staging failed for Display 2: P2419H (code -2)");
    let bare = monitor("\\\\.\\DISPLAY5", None, 0, 0, 1, 1, 1, false);
    assert_eq!(staging_failed_message(&bare, 1), "  Warning: staging failed for \\\\.\\DISPLAY5 (code 1)");
}

#[test]
fn commit_failure_message() {
    assert_eq!(CommandError::CommitFailed { code: -1 }.message(), "Failed to commit display changes (code -1)");
}

#[test]
fn list_report_matches_readme() {
    let mut p = Profiles::new();
    save_profile(&mut p, "office", office());
    save_profile(&mut p, "home", home());
    let lines = list_command(&p);
    let expected = vec![
        "Saved profiles in ~/.wsm-profiles:".to_string(),
        "  office — 2 monitor(s)".to_string(),
        "    Display 1: GS34WQCA                     3440x1440 @ 144Hz  pos (    0,     0)  primary: true".to_string(),
        "    Display 2: P2419H                       1920x1080 @  60Hz  pos ( 3440,   180)  primary: false".to_string(),
        "  home — 1 monitor(s)".to_string(),
        "    Display 1: P2419H                       1920x1080 @  60Hz  pos (    0,     0)  primary: true".to_string(),
    ];
    assert_eq!(lines, expected);
}

#[test]
fn list_report_empty() {
    assert_eq!(list_command(&Profiles::new()), vec!["No profiles saved yet.".to_string()]);
}

#[test]
fn delete_command_messages() {
    let mut p = Profiles::new();
    save_profile(&mut p, "office", office());
    assert_eq!(delete_command(&mut p, "office").unwrap(), "Profile 'office' deleted.");
    match delete_command(&mut p, "office") {
        Err(e) => assert_eq!(e.message(), "Profile 'office' not found"),
        Ok(_) => panic!("deleted twice"),
    }
}

#[test]
fn settings_warning_text() {
    assert_eq!(settings_unreadable_message("\\\\.\\DISPLAY4"), "Warning: could not read settings for \\\\.\\DISPLAY4");
}

#[test]
fn display_number_of_built_names() {
    for n in [0u32, 1, 9, 10, 12, 4294967295] {
        for prefix in ["", "\\\\.\\", "DISPLAY", "DISPLAY7DISPLAY", "x\u{1F600}"] {
            let name = format!("{prefix}DISPLAY{n}");
            assert_eq!(display_index(&name), Some(n), "name {:?}", name);
            assert_eq!(display_index_of_uppercased(&name), Some(n), "name {:?}", name);
        }
    }
}

#[test]
fn state_flag_tests() {
    assert!(has_state_flag(0b101, 1));
    assert!(has_state_flag(0b101, 4));
    assert!(!has_state_flag(0b101, 2));
    assert!(!has_state_flag(0, 1));
}

#[test]
fn staging_decisions() {
    let c = office();
    assert!(stages_as_primary(&c.monitors[0]));
    assert!(!stages_as_primary(&c.monitors[1]));
    assert_eq!(staging_outcome(&c.monitors[0], 0, 0), Ok("  Display 1: GS34WQCA — 3440x1440 @ 144Hz staged OK".to_string()));
    assert_eq!(staging_outcome(&c.monitors[1], -1, 0), Err("  Warning: staging failed for Display 2: P2419H (code -1)".to_string()));
}

#[test]
fn commit_outcomes() {
    assert!(commit_outcome(0, 0).is_ok());
    match commit_outcome(-4, 0) {
        Err(e) => assert_eq!(e.message(), "Failed to commit display changes (code -4)"),
        Ok(()) => panic!("failed commit accepted"),
    }
}
