use howlingwind::gcpad::{mapping_for_pad, GCPadMapping};
use howlingwind::launcher::{
    add_game, add_ini_devices, add_log_devices, add_xinput_device, button_states, cheats_enabled, configured_device,
    default_dolphin_ini, default_resolution, detect_controllers, game_id_from_header, game_id_or_default,
    game_name_from_id, game_settings_file, game_short_id, gecko_codes_for_game, initial_devices, initial_gcpad_ini,
    is_game_extension, is_game_window_title, is_image_extension_lower, launch_args, launch_iso, pressed_names, sdl_mapping, with_cheats_enabled,
    with_resolution, xinput_controller, AppSettings, GameInfo, LaunchError, XInputGamepad,
};

#[test]
fn settings_defaults() {
    let s = AppSettings::default();
    assert_eq!(s.player_name, "Player");
    assert_eq!((s.input_delay, s.max_rollback, s.resolution), (2, 7, 2));
    assert_eq!(s.selected_game, "gnt4");
    assert!(s.dolphin_path.is_empty() && s.iso_path.is_empty());
    assert_eq!(default_resolution(), 2);
}

#[test]
fn game_names_and_ids() {
    assert_eq!(game_name_from_id("G4NJDA"), "Naruto: Gekitou Ninja Taisen! 4");
    assert_eq!(game_name_from_id("SG4JDA"), "Naruto: GNT Special");
    assert_eq!(game_name_from_id("GALE01"), "Unknown (GALE01)");
    assert_eq!(game_short_id("G4NJDA"), "gnt4");
    assert_eq!(game_short_id("SG4JDA"), "gntsp");
    assert_eq!(game_short_id("GALE01"), "gale01");
    assert_eq!(game_id_or_default(None), "G4NJDA");
    assert_eq!(game_id_or_default(Some("SG4JDA".into())), "SG4JDA");
    assert_eq!(game_settings_file("G4NJDA"), "G4NJDA.ini");
}

#[test]
fn disc_headers() {
    assert_eq!(game_id_from_header(*b"G4NJDA"), Some("G4NJDA".to_string()));
    assert_eq!(game_id_from_header(*b"gale01"), Some("gale01".to_string()));
    assert_eq!(game_id_from_header(*b"G4N-DA"), None);
    assert_eq!(game_id_from_header([0xC3, 0xA9, b'A', b'B', b'C', b'D']), None);
    assert!(is_game_extension("iso"));
    assert!(is_game_extension("GCM"));
    assert!(is_game_extension("CiSo"));
    assert!(!is_game_extension("wbfs"));
}

#[test]
fn games_are_listed_once_per_id() {
    let mut games: Vec<GameInfo> = Vec::new();
    assert!(add_game(&mut games, "G4NJDA", "/games/a.iso"));
    assert!(!add_game(&mut games, "G4NJDA", "/games/b.iso"));
    assert!(add_game(&mut games, "SG4JDA", "/games/c.gcm"));
    assert_eq!(games.len(), 2);
    assert_eq!(games[0].id, "gnt4");
    assert_eq!(games[0].iso_path, "/games/a.iso");
    assert_eq!(games[1].name, "Naruto: GNT Special");
}

#[test]
fn controllers() {
    assert!(detect_controllers().is_empty());
    let c = xinput_controller(2);
    assert_eq!((c.index, c.name.as_str(), c.controller_type.as_str()), (2, "Xbox Controller 3", "xinput"));
}

#[test]
fn configured_controller_device() {
    let ini = "[GCPad1]\nDevice = DInput/0/Keyboard Mouse\n  Device =  SDL/0/Pad  \n[GCPad2]\nDevice = XInput/0/Gamepad\n";
    assert_eq!(configured_device(ini), Some("SDL/0/Pad".to_string()));
    assert_eq!(configured_device("Device = DInput/0/Keyboard Mouse\nDeviceX\n"), None);
    assert_eq!(configured_device("Devices = XInput/1/Gamepad"), Some("XInput/1/Gamepad".to_string()));
}

#[test]
fn device_list() {
    let mut ds = initial_devices();
    assert_eq!(ds, vec!["DInput/0/Keyboard Mouse".to_string()]);
    add_ini_devices(&mut ds, "[GCPad1]\nDevice = DInput/0/Keyboard Mouse\nDevice = SDL/0/Pad\nDevice =\nDevice = SDL/0/Pad\n");
    assert_eq!(ds, vec!["DInput/0/Keyboard Mouse".to_string(), "SDL/0/Pad".to_string()]);
    add_log_devices(
        &mut ds,
        "12:00 Added device: SDL/1/Other Pad \nnothing here\nX Added device: A Added device: B\nAdded device:   \n",
    );
    assert_eq!(ds, vec!["DInput/0/Keyboard Mouse", "SDL/0/Pad", "SDL/1/Other Pad", "A"]);
    add_xinput_device(&mut ds, 0);
    add_xinput_device(&mut ds, 0);
    assert_eq!(ds.last().unwrap(), "XInput/0/Gamepad");
    assert_eq!(ds.len(), 5);
}

#[test]
fn first_time_controller_file() {
    let text = initial_gcpad_ini("SDL/0/Xbox One S Controller".to_string());
    assert!(text.starts_with("[GCPad1]\nDevice = SDL/0/Xbox One S Controller\nButtons/A = `Button S`\n"));
    assert!(text.ends_with("D-Pad/Right = `Pad E`\n[GCPad2]\nDevice = DInput/0/Keyboard Mouse\n[GCPad3]\nDevice = DInput/0/Keyboard Mouse\n[GCPad4]\nDevice = DInput/0/Keyboard Mouse\n"));
    let m = mapping_for_pad(&text, 1);
    assert_eq!(m.z, "Trigger R");
    assert_eq!(m.stick_left, "Left X-");
    let sdl = sdl_mapping("dev".into());
    assert_eq!((sdl.device.as_str(), sdl.l.as_str(), sdl.r.as_str()), ("dev", "Trigger L", "Shoulder R"));
    assert_eq!(mapping_for_pad(&text, 3).device, GCPadMapping::default().device);
}

#[test]
fn cheat_codes_and_cheat_setting() {
    let g = gecko_codes_for_game("G4NJDA").unwrap();
    assert!(g.starts_with("[Gecko_Enabled]\n$Unlock Everything\n$Skip Intro Videos\n\n[Gecko]\n"));
    assert!(g.ends_with("0400CB3C 60000000\n"));
    assert!(gecko_codes_for_game("SG4JDA").unwrap().contains("043e896c fecbfebf\n"));
    assert!(gecko_codes_for_game("GALE01").is_none());
    assert!(cheats_enabled("[Core]\nEnableCheats = True\n"));
    assert!(!cheats_enabled("[Core]\nEnableCheats = False\n"));
    assert_eq!(with_cheats_enabled("a\nEnableCheats = True\n"), "a\nEnableCheats = True\n");
    assert_eq!(with_cheats_enabled("[Core]\nEnableCheats = False\nX=1\n"), "[Core]\nEnableCheats = True\nX=1\n");
    assert_eq!(with_cheats_enabled("[Core]\nEnableCheats=False\n"), "[Core]\nEnableCheats=False\n");
    assert_eq!(with_cheats_enabled("[Core]\nCPUThread = True\n"), "[Core]\nEnableCheats = True\nCPUThread = True\n");
    assert_eq!(with_cheats_enabled("[Interface]\n"), "[Core]\nEnableCheats = True\n[Interface]\n");
    assert_eq!(with_cheats_enabled(""), "[Core]\nEnableCheats = True\n");
    assert_eq!(
        default_dolphin_ini(),
        "[Core]\nEnableCheats = True\nSIDevice0 = 6\nSIDevice1 = 12\nSIDevice2 = 0\nSIDevice3 = 0\n"
    );
}

#[test]
fn resolution_setting() {
    assert_eq!(
        with_resolution("[Settings]\r\n  InternalResolution = 1\nMSAA = 0", 3),
        "[Settings]\nInternalResolution = 3\nMSAA = 0\n"
    );
    assert_eq!(with_resolution("[Settings]\nMSAA = 0\n", 2), "[Settings]\nInternalResolution = 2\nMSAA = 0\n");
    assert_eq!(with_resolution("[Hacks]\n", 4), "[Settings]\nInternalResolution = 4\n[Hacks]\n");
    assert_eq!(with_resolution("", 1), "[Settings]\nInternalResolution = 1\n");
}

#[test]
fn launching() {
    let mut s = AppSettings::default();
    assert_eq!(launch_iso(&s, None), Err(LaunchError::DolphinPathUnset));
    s.dolphin_path = "/d/Dolphin".into();
    assert_eq!(launch_iso(&s, None), Err(LaunchError::NoIsoSelected));
    assert_eq!(launch_iso(&s, Some("/g/x.iso".into())), Ok("/g/x.iso".to_string()));
    s.iso_path = "/g/y.iso".into();
    assert_eq!(launch_iso(&s, None), Ok("/g/y.iso".to_string()));
    assert_eq!(launch_iso(&s, Some(String::new())), Err(LaunchError::NoIsoSelected));
    assert_eq!(launch_args("/g/y.iso", "netplay"), vec!["--batch", "--exec", "/g/y.iso", "--netplay"]);
    assert_eq!(launch_args("/g/y.iso", "local"), vec!["--batch", "--exec", "/g/y.iso"]);
}

#[test]
fn game_window_titles() {
    assert!(is_game_window_title("Dolphin 5.0 | OpenGL | HLE"));
    assert!(is_game_window_title("Dolphin - NARUTO GEKITOU"));
    assert!(!is_game_window_title("Dolphin"));
    assert!(!is_game_window_title("OpenGL viewer"));
}

#[test]
fn xinput_pad_decoding() {
    let gp = XInputGamepad {
        buttons: 0x1000 | 0x0010 | 0x0008,
        left_trigger: 31,
        right_trigger: 30,
        thumb_lx: 8001,
        thumb_ly: -8001,
        thumb_rx: 8000,
        thumb_ry: -8000,
    };
    let b = button_states(&gp);
    assert_eq!(b.len(), 16);
    assert!(b[0] && b[6] && !b[7] && b[9] && b[15]);
    assert!(!b[1]);
    assert_eq!(pressed_names(&gp), vec!["Button A", "Trigger L", "Start", "Pad E", "Left X+", "Left Y-"]);
}

#[test]
fn lower_case_image_extensions() {
    assert!(is_image_extension_lower("iso"));
    assert!(is_image_extension_lower("gcm"));
    assert!(is_image_extension_lower("ciso"));
    assert!(!is_image_extension_lower("ISO"));
    assert!(!is_image_extension_lower("wbfs"));
    assert!(!is_image_extension_lower(""));
}
