//! The launcher's own rules: settings and their defaults, recognising game
//! discs, and reading and writing the emulator's controller configuration.
//! Files, processes and windows are handled by the application.

use vstd::prelude::*;
use crate::gcpad::{
    fields, format_gcpad_section, join_lines, keyboard_section, push_keyboard_section, section_lines, GCPadMapping,
};
use crate::text::{
    chars_of, chars_eq, contains_chars, contains_seq, dec_digits, find_chars, find_seq, first_index_of,
    find_char, has_prefix,
    matches_at, occurs_at, replace_all, replace_chars, push_chars, push_dec, push_str, slice_chars, split_lines, starts_with, string_of,
    text_lines,
    trim, trim_chars,
};

verus! {

/// A game disc found on disk.
#[derive(Clone, Debug)]
pub struct GameInfo {
    /// Short id, such as `gnt4`.
    pub id: String,
    /// Display name.
    pub name: String,
    /// The six-character id in the disc header, such as `G4NJDA`.
    pub game_id: String,
    pub iso_path: String,
}

/// The user's settings.
#[derive(Clone, Debug)]
pub struct AppSettings {
    pub dolphin_path: String,
    pub iso_path: String,
    pub player_name: String,
    pub input_delay: u32,
    pub max_rollback: u32,
    /// `gnt4` or `gntsp`.
    pub selected_game: String,
    /// Internal resolution multiplier: 1 is native.
    pub resolution: u32,
}

/// The resolution a settings file without one gets.
pub fn default_resolution() -> (r: u32)
    ensures
        r == 2,
{
    2
}

impl Default for AppSettings {
    fn default() -> (s: Self)
        ensures
            s.dolphin_path@ == Seq::<char>::empty(),
            s.iso_path@ == Seq::<char>::empty(),
            s.player_name@ == "Player"@,
            s.input_delay == 2,
            s.max_rollback == 7,
            s.selected_game@ == "gnt4"@,
            s.resolution == 2,
    {
        AppSettings {
            dolphin_path: String::new(),
            iso_path: String::new(),
            player_name: String::from_str("Player"),
            input_delay: 2,
            max_rollback: 7,
            selected_game: String::from_str("gnt4"),
            resolution: 2,
        }
    }
}

/// A controller the system reports.
#[derive(Clone, Debug)]
pub struct ControllerInfo {
    pub index: u32,
    pub name: String,
    pub controller_type: String,
}

/// The controllers found. Only the Windows build can ask XInput; elsewhere
/// there are none.
pub fn detect_controllers() -> (c: Vec<ControllerInfo>)
    ensures
        c@.len() == 0,
{
    Vec::new()
}

/// The entry for the XInput controller in slot `index` (0 to 3).
pub fn xinput_controller(index: u32) -> (c: ControllerInfo)
    requires
        index < 4,
    ensures
        c.index == index,
        c.name@ == "Xbox Controller "@ + dec_digits((index + 1) as nat),
        c.controller_type@ == "xinput"@,
{
    let mut name: Vec<char> = Vec::new();
    push_str(&mut name, "Xbox Controller ");
    push_dec(&mut name, (index + 1) as u64);
    ControllerInfo { index, name: string_of(&name), controller_type: String::from_str("xinput") }
}

/// The id of the GNT4 disc.
pub const GNT4_GAME_ID: &'static str = "G4NJDA";
/// The id of the Special edition's disc.
pub const GNTSP_GAME_ID: &'static str = "SG4JDA";

/// The display name of a disc id.
pub open spec fn game_name_spec(game_id: Seq<char>) -> Seq<char> {
    if game_id == "G4NJDA"@ {
        "Naruto: Gekitou Ninja Taisen! 4"@
    } else if game_id == "SG4JDA"@ {
        "Naruto: GNT Special"@
    } else {
        "Unknown ("@ + game_id + ")"@
    }
}

/// The display name of a disc id (see [`game_name_spec`]).
pub fn game_name_from_id(game_id: &str) -> (name: String)
    ensures
        name@ == game_name_spec(game_id@),
{
    let id = chars_of(game_id);
    if chars_eq(&id, &chars_of("G4NJDA")) {
        String::from_str("Naruto: Gekitou Ninja Taisen! 4")
    } else if chars_eq(&id, &chars_of("SG4JDA")) {
        String::from_str("Naruto: GNT Special")
    } else {
        let mut v: Vec<char> = Vec::new();
        push_str(&mut v, "Unknown (");
        push_chars(&mut v, &id);
        push_str(&mut v, ")");
        string_of(&v)
    }
}

/// What `str::to_lowercase` gives for a string: its Unicode lower-case form.
pub uninterp spec fn lowercase(s: Seq<char>) -> Seq<char>;

/// Lower-cases a string; calls `str::to_lowercase`, whose result is named [`lowercase`].
#[verifier::external_body]
pub(crate) fn to_lowercase(s: &str) -> (r: String)
    ensures
        r@ == lowercase(s@),
{
    s.to_lowercase()
}

/// The short id of a disc id: the two known games by name, any other in lower case.
pub open spec fn short_id_spec(game_id: Seq<char>) -> Seq<char> {
    if game_id == "G4NJDA"@ {
        "gnt4"@
    } else if game_id == "SG4JDA"@ {
        "gntsp"@
    } else {
        lowercase(game_id)
    }
}

/// The short id of a disc id (see [`short_id_spec`]).
pub fn game_short_id(game_id: &str) -> (id: String)
    ensures
        id@ == short_id_spec(game_id@),
{
    let id = chars_of(game_id);
    if chars_eq(&id, &chars_of("G4NJDA")) {
        String::from_str("gnt4")
    } else if chars_eq(&id, &chars_of("SG4JDA")) {
        String::from_str("gntsp")
    } else {
        to_lowercase(game_id)
    }
}

/// Whether a byte is an ASCII letter or digit.
pub open spec fn is_ascii_alnum(b: u8) -> bool {
    (0x30 <= b <= 0x39) || (0x41 <= b <= 0x5A) || (0x61 <= b <= 0x7A)
}

/// The disc id in the first six bytes of an image, when they are all ASCII
/// letters and digits; those bytes read as text are the id.
pub fn game_id_from_header(header: [u8; 6]) -> (id: Option<String>)
    ensures
        match id {
            Some(s) => (forall|i: int| 0 <= i < 6 ==> is_ascii_alnum(#[trigger] header@[i])) && s@ == Seq::new(
                6,
                |i: int| header@[i] as char,
            ),
            None => exists|i: int| 0 <= i < 6 && !is_ascii_alnum(#[trigger] header@[i]),
        },
{
    let mut v: Vec<char> = Vec::new();
    for i in 0..6
        invariant
            v@.len() == i,
            forall|j: int| 0 <= j < i ==> is_ascii_alnum(#[trigger] header@[j]) && v@[j] == header@[j] as char,
    {
        let b = header[i];
        if !((0x30 <= b && b <= 0x39) || (0x41 <= b && b <= 0x5A) || (0x61 <= b && b <= 0x7A)) {
            assert(!is_ascii_alnum(header@[i as int]));
            return None;
        }
        v.push(b as char);
    }
    assert(v@ =~= Seq::new(6, |i: int| header@[i] as char));
    Some(string_of(&v))
}

/// Whether a file extension marks a disc image: `iso`, `gcm` or `ciso` in any case.
pub open spec fn is_game_extension_spec(ext: Seq<char>) -> bool {
    let e = lowercase(ext);
    e == "iso"@ || e == "gcm"@ || e == "ciso"@
}

/// Whether an already lower-cased extension is one of a disc image:
/// `iso`, `gcm` or `ciso`.
pub fn is_image_extension_lower(lower: &str) -> (b: bool)
    ensures
        b == (lower@ == "iso"@ || lower@ == "gcm"@ || lower@ == "ciso"@),
{
    let e = chars_of(lower);
    chars_eq(&e, &chars_of("iso")) || chars_eq(&e, &chars_of("gcm")) || chars_eq(&e, &chars_of("ciso"))
}

/// Whether a file extension marks a disc image (see [`is_game_extension_spec`]).
pub fn is_game_extension(ext: &str) -> (b: bool)
    ensures
        b == is_game_extension_spec(ext@),
{
    let lower = to_lowercase(ext);
    is_image_extension_lower(lower.as_str())
}

/// Add a disc found at `path` with header id `game_id`, unless a disc with
/// that id is listed already; returns whether it was added.
pub fn add_game(games: &mut Vec<GameInfo>, game_id: &str, path: &str) -> (added: bool)
    ensures
        added == (forall|i: int| 0 <= i < old(games)@.len() ==> old(games)@[i].game_id@ != game_id@),
        added ==> final(games)@.len() == old(games)@.len() + 1 && final(games)@.subrange(
            0,
            old(games)@.len() as int,
        ) == old(games)@ && final(games)@.last().id@ == short_id_spec(game_id@) && final(games)@.last().name@
            == game_name_spec(game_id@) && final(games)@.last().game_id@ == game_id@
            && final(games)@.last().iso_path@ == path@,
        !added ==> final(games)@ == old(games)@,
{
    let id = chars_of(game_id);
    for i in 0..games.len()
        invariant
            id@ == game_id@,
            forall|j: int| 0 <= j < i ==> games@[j].game_id@ != game_id@,
    {
        if chars_eq(&chars_of(games[i].game_id.as_str()), &id) {
            return false;
        }
    }
    let info = GameInfo {
        id: game_short_id(game_id),
        name: game_name_from_id(game_id),
        game_id: String::from_str(game_id),
        iso_path: String::from_str(path),
    };
    let ghost before = games@;
    games.push(info);
    assert(games@.subrange(0, before.len() as int) =~= before);
    true
}


/// The value of a `Device = value` line, trimmed.
pub open spec fn device_value(line: Seq<char>) -> Option<Seq<char>> {
    let t = trim(line);
    if has_prefix(t, "Device"@) {
        match first_index_of(t, '=') {
            Some(p) => Some(trim(t.subrange(p + 1, t.len() as int))),
            None => None,
        }
    } else {
        None
    }
}

/// The device value of a line (see [`device_value`]).
fn device_value_of(line: &Vec<char>) -> (r: Option<Vec<char>>)
    ensures
        match r {
            Some(v) => device_value(line@) == Some(v@),
            None => device_value(line@) is None,
        },
{
    let t = trim_chars(line);
    if !starts_with(&t, &chars_of("Device")) {
        return None;
    }
    match find_char(&t, '=') {
        Some(p) => {
            let n = t.len();
            Some(trim_chars(&slice_chars(&t, p + 1, n)))
        },
        None => None,
    }
}

/// Whether a device name is a game controller the emulator reaches through SDL or XInput.
pub open spec fn is_controller_device(v: Seq<char>) -> bool {
    contains_seq(v, "SDL"@) || contains_seq(v, "XInput"@)
}

/// The first controller device configured in a file's lines.
pub open spec fn first_controller_device(lines: Seq<Seq<char>>) -> Option<Seq<char>>
    decreases lines.len(),
{
    if lines.len() == 0 {
        None
    } else {
        match device_value(lines[0]) {
            Some(v) => if is_controller_device(v) {
                Some(v)
            } else {
                first_controller_device(lines.drop_first())
            },
            None => first_controller_device(lines.drop_first()),
        }
    }
}

/// The first SDL or XInput device a controller configuration names, if any
/// (see [`first_controller_device`]).
pub fn configured_device(content: &str) -> (r: Option<String>)
    ensures
        match r {
            Some(v) => first_controller_device(text_lines(content@)) == Some(v@),
            None => first_controller_device(text_lines(content@)) is None,
        },
{
    let lines = split_lines(&chars_of(content));
    let ghost ls = lines@.map_values(|l: Vec<char>| l@);
    let n = lines.len();
    let sdl = chars_of("SDL");
    let xinput = chars_of("XInput");
    assert(ls.subrange(0, n as int) =~= ls);
    for i in 0..n
        invariant
            n == lines@.len(),
            ls == lines@.map_values(|l: Vec<char>| l@),
            ls == text_lines(content@),
            sdl@ == "SDL"@,
            xinput@ == "XInput"@,
            first_controller_device(ls) == first_controller_device(ls.subrange(i as int, n as int)),
    {
        let ghost t = ls.subrange(i as int, n as int);
        assert(t[0] == lines@[i as int]@);
        assert(t.drop_first() =~= ls.subrange(i + 1, n as int));
        match device_value_of(&lines[i]) {
            Some(v) => {
                if contains_chars(&v, &sdl) || contains_chars(&v, &xinput) {
                    return Some(string_of(&v));
                }
            },
            None => {},
        }
    }
    assert(ls.subrange(n as int, n as int).len() == 0);
    None
}

/// `ds` with `v` added at the end, unless it is empty or listed already.
pub open spec fn add_unique(ds: Seq<Seq<char>>, v: Seq<char>) -> Seq<Seq<char>> {
    if v.len() > 0 && !ds.contains(v) {
        ds.push(v)
    } else {
        ds
    }
}

/// Add a device name unless it is empty or listed already.
pub fn add_device(devices: &mut Vec<String>, v: &Vec<char>)
    ensures
        final(devices)@.map_values(|d: String| d@) == add_unique(old(devices)@.map_values(|d: String| d@), v@),
{
    let ghost ds = devices@.map_values(|d: String| d@);
    if v.len() == 0 {
        return;
    }
    for i in 0..devices.len()
        invariant
            ds == devices@.map_values(|d: String| d@),
            forall|j: int| 0 <= j < i ==> ds[j] != v@,
    {
        if chars_eq(&chars_of(devices[i].as_str()), v) {
            assert(ds.contains(v@)) by {
                assert(ds[i as int] == v@);
            }
            return;
        }
    }
    assert(!ds.contains(v@));
    devices.push(string_of(v));
    assert(devices@.map_values(|d: String| d@) =~= ds.push(v@));
}

/// The devices a configuration file's lines name, added in order.
pub open spec fn add_ini_devices_spec(ds: Seq<Seq<char>>, lines: Seq<Seq<char>>) -> Seq<Seq<char>>
    decreases lines.len(),
{
    if lines.len() == 0 {
        ds
    } else {
        let ds1 = add_ini_devices_spec(ds, lines.drop_last());
        match device_value(lines.last()) {
            Some(v) => add_unique(ds1, v),
            None => ds1,
        }
    }
}

/// Add every device a controller configuration names (see [`add_ini_devices_spec`]).
#[verifier::rlimit(30)]
pub fn add_ini_devices(devices: &mut Vec<String>, content: &str)
    ensures
        final(devices)@.map_values(|d: String| d@) == add_ini_devices_spec(
            old(devices)@.map_values(|d: String| d@),
            text_lines(content@),
        ),
{
    let lines = split_lines(&chars_of(content));
    let ghost ls = lines@.map_values(|l: Vec<char>| l@);
    let ghost start = devices@.map_values(|d: String| d@);
    assert(ls.subrange(0, 0) =~= Seq::<Seq<char>>::empty());
    for i in 0..lines.len()
        invariant
            ls == lines@.map_values(|l: Vec<char>| l@),
            devices@.map_values(|d: String| d@) == add_ini_devices_spec(start, ls.subrange(0, i as int)),
    {
        assert(ls.subrange(0, i + 1).drop_last() =~= ls.subrange(0, i as int));
        assert(ls.subrange(0, i + 1).last() == lines@[i as int]@);
        match device_value_of(&lines[i]) {
            Some(v) => add_device(devices, &v),
            None => {},
        }
    }
    assert(ls.subrange(0, lines@.len() as int) =~= ls);
}

/// The device a log line reports as added: the text after the first
/// `Added device:` up to the next one or the end, trimmed.
pub open spec fn logged_device(line: Seq<char>) -> Option<Seq<char>> {
    let pat = "Added device:"@;
    match find_seq(line, pat) {
        Some(p) => {
            let rest = line.subrange(p + pat.len(), line.len() as int);
            match find_seq(rest, pat) {
                Some(q) => Some(trim(rest.subrange(0, q))),
                None => Some(trim(rest)),
            }
        },
        None => None,
    }
}

/// The device a log line reports (see [`logged_device`]).
fn logged_device_of(line: &Vec<char>) -> (r: Option<Vec<char>>)
    ensures
        match r {
            Some(v) => logged_device(line@) == Some(v@),
            None => logged_device(line@) is None,
        },
{
    let pat = chars_of("Added device:");
    match find_chars(line, &pat) {
        Some(p) => {
            let n = line.len();
            let rest = slice_chars(line, p + pat.len(), n);
            match find_chars(&rest, &pat) {
                Some(q) => Some(trim_chars(&slice_chars(&rest, 0, q))),
                None => Some(trim_chars(&rest)),
            }
        },
        None => None,
    }
}

/// The devices an emulator log's lines report, added in order.
pub open spec fn add_log_devices_spec(ds: Seq<Seq<char>>, lines: Seq<Seq<char>>) -> Seq<Seq<char>>
    decreases lines.len(),
{
    if lines.len() == 0 {
        ds
    } else {
        let ds1 = add_log_devices_spec(ds, lines.drop_last());
        match logged_device(lines.last()) {
            Some(v) => add_unique(ds1, v),
            None => ds1,
        }
    }
}

/// Add every device an emulator log reports (see [`add_log_devices_spec`]).
#[verifier::rlimit(30)]
pub fn add_log_devices(devices: &mut Vec<String>, content: &str)
    ensures
        final(devices)@.map_values(|d: String| d@) == add_log_devices_spec(
            old(devices)@.map_values(|d: String| d@),
            text_lines(content@),
        ),
{
    let lines = split_lines(&chars_of(content));
    let ghost ls = lines@.map_values(|l: Vec<char>| l@);
    let ghost start = devices@.map_values(|d: String| d@);
    assert(ls.subrange(0, 0) =~= Seq::<Seq<char>>::empty());
    for i in 0..lines.len()
        invariant
            ls == lines@.map_values(|l: Vec<char>| l@),
            devices@.map_values(|d: String| d@) == add_log_devices_spec(start, ls.subrange(0, i as int)),
    {
        assert(ls.subrange(0, i + 1).drop_last() =~= ls.subrange(0, i as int));
        assert(ls.subrange(0, i + 1).last() == lines@[i as int]@);
        match logged_device_of(&lines[i]) {
            Some(v) => add_device(devices, &v),
            None => {},
        }
    }
    assert(ls.subrange(0, lines@.len() as int) =~= ls);
}

/// The emulator's name for an XInput pad.
pub open spec fn xinput_device_name(index: u32) -> Seq<char> {
    "XInput/"@ + dec_digits(index as nat) + "/Gamepad"@
}

/// Add the XInput pad in slot `index` unless it is listed already.
pub fn add_xinput_device(devices: &mut Vec<String>, index: u32)
    ensures
        final(devices)@.map_values(|d: String| d@) == add_unique(
            old(devices)@.map_values(|d: String| d@),
            xinput_device_name(index),
        ),
{
    let mut v: Vec<char> = Vec::new();
    push_str(&mut v, "XInput/");
    push_dec(&mut v, index as u64);
    push_str(&mut v, "/Gamepad");
    add_device(devices, &v);
}

/// The device list before any file is read: the keyboard.
pub fn initial_devices() -> (ds: Vec<String>)
    ensures
        ds@.map_values(|d: String| d@) == seq!["DInput/0/Keyboard Mouse"@],
{
    let mut ds: Vec<String> = Vec::new();
    ds.push(String::from_str("DInput/0/Keyboard Mouse"));
    assert(ds@.map_values(|d: String| d@) =~= seq!["DInput/0/Keyboard Mouse"@]);
    ds
}


/// The standard controller layout for an SDL pad, on `device`.
pub open spec fn sdl_fields(device: Seq<char>) -> Seq<Seq<char>> {
    seq![
        device, "Button S"@, "Button E"@, "Button W"@, "Button N"@, "Trigger R"@, "Start"@, "Trigger L"@,
        "Shoulder R"@, "Left Y+"@, "Left Y-"@, "Left X-"@, "Left X+"@, "Right Y+"@, "Right Y-"@, "Right X-"@,
        "Right X+"@, "Pad N"@, "Pad S"@, "Pad W"@, "Pad E"@,
    ]
}

/// The standard controller layout for an SDL pad (see [`sdl_fields`]).
pub fn sdl_mapping(device: String) -> (m: GCPadMapping)
    ensures
        fields(m) == sdl_fields(device@),
{
    GCPadMapping {
        device,
        a: String::from_str("Button S"),
        b: String::from_str("Button E"),
        x: String::from_str("Button W"),
        y: String::from_str("Button N"),
        z: String::from_str("Trigger R"),
        start: String::from_str("Start"),
        l: String::from_str("Trigger L"),
        r: String::from_str("Shoulder R"),
        stick_up: String::from_str("Left Y+"),
        stick_down: String::from_str("Left Y-"),
        stick_left: String::from_str("Left X-"),
        stick_right: String::from_str("Left X+"),
        cstick_up: String::from_str("Right Y+"),
        cstick_down: String::from_str("Right Y-"),
        cstick_left: String::from_str("Right X-"),
        cstick_right: String::from_str("Right X+"),
        dpad_up: String::from_str("Pad N"),
        dpad_down: String::from_str("Pad S"),
        dpad_left: String::from_str("Pad W"),
        dpad_right: String::from_str("Pad E"),
    }
}

/// The controller configuration written when none exists: port 1 on the SDL
/// pad `device`, ports 2 to 4 on the keyboard, and a final line feed.
pub open spec fn initial_gcpad_ini_spec(device: Seq<char>) -> Seq<char> {
    join_lines(section_lines(1, sdl_fields(device))) + seq!['\n'] + keyboard_section(2) + seq!['\n']
        + keyboard_section(3) + seq!['\n'] + keyboard_section(4) + seq!['\n']
}

/// The controller configuration written when none exists (see [`initial_gcpad_ini_spec`]).
pub fn initial_gcpad_ini(device: String) -> (s: String)
    ensures
        s@ == initial_gcpad_ini_spec(device@),
{
    let ghost d = device@;
    let m = sdl_mapping(device);
    let mut out = chars_of(format_gcpad_section(1, &m).as_str());
    out.push('\n');
    push_keyboard_section(&mut out, 2);
    out.push('\n');
    push_keyboard_section(&mut out, 3);
    out.push('\n');
    push_keyboard_section(&mut out, 4);
    out.push('\n');
    assert(out@ =~= initial_gcpad_ini_spec(d));
    string_of(&out)
}

/// The cheat codes installed for a game: unlocking everything and skipping
/// the intro, for the two known discs.
pub open spec fn gecko_codes_spec(game_id: Seq<char>) -> Option<Seq<char>> {
    if game_id == "G4NJDA"@ {
        Some(GNT4_GECKO@)
    } else if game_id == "SG4JDA"@ {
        Some(GNTSP_GECKO@)
    } else {
        None
    }
}

/// Game settings that enable GNT4's unlock and intro-skip codes.
pub const GNT4_GECKO: &'static str = "[Gecko_Enabled]\n$Unlock Everything\n$Skip Intro Videos\n\n[Gecko]\n$Unlock Everything\nC200CA80 00000012\n3860FFFF 3FC08022\n907E3258 907E325C\n907E3260 907E3264\n907E3268 907E326C\n907E3270 907E3274\n907E3278 907E327C\n907E3280 907E3284\n907E32FC 907E3300\n907E3304 907E3308\n907E330C 907E3310\n907E3314 907E3318\n907E331C 907E3320\n907E3324 907E3328\n907E332C 907E3330\n907E3334 907E3338\n907E333C 3FE00002\n387FFF03 907E32E8\n38600000 00000000\n$Skip Intro Videos\n0400CB14 60000000\n0400CB28 60000000\n0400CB3C 60000000\n";

/// Game settings that enable the Special edition's unlock and intro-skip codes.
pub const GNTSP_GECKO: &'static str = "[Gecko_Enabled]\n$Unlock All Characters\n$Skip Intro Cutscenes\n\n[Gecko]\n$Unlock All Characters\n043e896c fecbfebf\n043e8970 7f901f01\n$Skip Intro Cutscenes\nC21633E0 00000003\n2C12000b 40820008\n3A400001 9421FFF0\n60000000 00000000\n";

/// The cheat codes installed for a game (see [`gecko_codes_spec`]).
pub fn gecko_codes_for_game(game_id: &str) -> (r: Option<String>)
    ensures
        match r {
            Some(s) => gecko_codes_spec(game_id@) == Some(s@),
            None => gecko_codes_spec(game_id@) is None,
        },
{
    let id = chars_of(game_id);
    if chars_eq(&id, &chars_of("G4NJDA")) {
        Some(String::from_str(GNT4_GECKO))
    } else if chars_eq(&id, &chars_of("SG4JDA")) {
        Some(String::from_str(GNTSP_GECKO))
    } else {
        None
    }
}

/// The name of a game's settings file.
pub fn game_settings_file(game_id: &str) -> (s: String)
    ensures
        s@ == game_id@ + ".ini"@,
{
    let mut v = chars_of(game_id);
    push_str(&mut v, ".ini");
    string_of(&v)
}

/// Whether an emulator configuration has cheats on.
pub open spec fn cheats_enabled_spec(content: Seq<char>) -> bool {
    contains_seq(content, "EnableCheats = True"@)
}

/// An emulator configuration with cheats turned on: unchanged if they are
/// on; an existing `EnableCheats = False` flipped; else the setting added
/// under `[Core]`, or a `[Core]` section with it put in front.
pub open spec fn with_cheats_spec(content: Seq<char>) -> Seq<char> {
    if cheats_enabled_spec(content) {
        content
    } else if contains_seq(content, "EnableCheats"@) {
        replace_all(content, "EnableCheats = False"@, "EnableCheats = True"@)
    } else if contains_seq(content, "[Core]"@) {
        replace_all(content, "[Core]"@, "[Core]\nEnableCheats = True"@)
    } else {
        "[Core]\nEnableCheats = True\n"@ + content
    }
}

/// Whether an emulator configuration has cheats on (see [`cheats_enabled_spec`]).
pub fn cheats_enabled(content: &str) -> (b: bool)
    ensures
        b == cheats_enabled_spec(content@),
{
    contains_chars(&chars_of(content), &chars_of("EnableCheats = True"))
}

/// An emulator configuration with cheats turned on (see [`with_cheats_spec`]).
pub fn with_cheats_enabled(content: &str) -> (s: String)
    ensures
        s@ == with_cheats_spec(content@),
{
    let c = chars_of(content);
    proof {
        reveal_strlit("EnableCheats = False");
        reveal_strlit("[Core]");
    }
    if contains_chars(&c, &chars_of("EnableCheats = True")) {
        String::from_str(content)
    } else if contains_chars(&c, &chars_of("EnableCheats")) {
        string_of(&replace_chars(&c, &chars_of("EnableCheats = False"), &chars_of("EnableCheats = True")))
    } else if contains_chars(&c, &chars_of("[Core]")) {
        string_of(&replace_chars(&c, &chars_of("[Core]"), &chars_of("[Core]\nEnableCheats = True")))
    } else {
        let mut v = chars_of("[Core]\nEnableCheats = True\n");
        push_chars(&mut v, &c);
        string_of(&v)
    }
}

/// The emulator configuration written when there is none to start from:
/// cheats on, a standard pad on port 1 and a GameCube adapter on port 2.
pub fn default_dolphin_ini() -> (s: String)
    ensures
        s@ == "[Core]\nEnableCheats = True\nSIDevice0 = 6\nSIDevice1 = 12\nSIDevice2 = 0\nSIDevice3 = 0\n"@,
{
    String::from_str("[Core]\nEnableCheats = True\nSIDevice0 = 6\nSIDevice1 = 12\nSIDevice2 = 0\nSIDevice3 = 0\n")
}


/// The graphics setting line for a resolution multiplier.
pub open spec fn resolution_line(resolution: u32) -> Seq<char> {
    "InternalResolution = "@ + dec_digits(resolution as nat)
}

/// Lines rewritten with the resolution setting, each followed by a line feed.
pub open spec fn lines_with_resolution(ls: Seq<Seq<char>>, resolution: u32) -> Seq<char>
    decreases ls.len(),
{
    if ls.len() == 0 {
        seq![]
    } else {
        lines_with_resolution(ls.drop_last(), resolution) + (if has_prefix(trim(ls.last()), "InternalResolution"@) {
            resolution_line(resolution)
        } else {
            ls.last()
        }) + seq!['\n']
    }
}

/// A graphics configuration with the internal resolution set: every line
/// setting it replaced (and the text rebuilt line by line); else the line
/// added under `[Settings]`, or a `[Settings]` section with it put in front.
pub open spec fn with_resolution_spec(content: Seq<char>, resolution: u32) -> Seq<char> {
    if contains_seq(content, "InternalResolution"@) {
        lines_with_resolution(text_lines(content), resolution)
    } else if contains_seq(content, "[Settings]"@) {
        replace_all(content, "[Settings]"@, "[Settings]\n"@ + resolution_line(resolution))
    } else {
        "[Settings]\n"@ + resolution_line(resolution) + seq!['\n'] + content
    }
}

/// A graphics configuration with the internal resolution set (see [`with_resolution_spec`]).
pub fn with_resolution(content: &str, resolution: u32) -> (s: String)
    ensures
        s@ == with_resolution_spec(content@, resolution),
{
    let c = chars_of(content);
    let mut line: Vec<char> = Vec::new();
    push_str(&mut line, "InternalResolution = ");
    push_dec(&mut line, resolution as u64);
    let key = chars_of("InternalResolution");
    if contains_chars(&c, &key) {
        let lines = split_lines(&c);
        let ghost ls = lines@.map_values(|l: Vec<char>| l@);
        let mut out: Vec<char> = Vec::new();
        assert(ls.subrange(0, 0) =~= Seq::<Seq<char>>::empty());
        for i in 0..lines.len()
            invariant
                ls == lines@.map_values(|l: Vec<char>| l@),
                key@ == "InternalResolution"@,
                line@ == resolution_line(resolution),
                out@ == lines_with_resolution(ls.subrange(0, i as int), resolution),
        {
            let ghost before = out@;
            assert(ls.subrange(0, i + 1).drop_last() =~= ls.subrange(0, i as int));
            assert(ls.subrange(0, i + 1).last() == lines@[i as int]@);
            if starts_with(&trim_chars(&lines[i]), &key) {
                push_chars(&mut out, &line);
            } else {
                push_chars(&mut out, &lines[i]);
            }
            out.push('\n');
            assert(out@ =~= lines_with_resolution(ls.subrange(0, i + 1), resolution));
        }
        assert(ls.subrange(0, lines@.len() as int) =~= ls);
        string_of(&out)
    } else {
        let settings = chars_of("[Settings]");
        if contains_chars(&c, &settings) {
            proof {
                reveal_strlit("[Settings]");
            }
            let mut to = chars_of("[Settings]\n");
            push_chars(&mut to, &line);
            string_of(&replace_chars(&c, &settings, &to))
        } else {
            let mut v = chars_of("[Settings]\n");
            push_chars(&mut v, &line);
            v.push('\n');
            push_chars(&mut v, &c);
            string_of(&v)
        }
    }
}

/// Why the emulator cannot be launched, found before touching the disk.
#[derive(Clone, Copy, Debug, PartialEq, Eq, Structural)]
pub enum LaunchError {
    /// No emulator path is configured.
    DolphinPathUnset,
    /// No disc was picked and none is configured.
    NoIsoSelected,
}

/// The disc image to launch: the one picked, else the configured one;
/// fails when no emulator path is set, then when there is no disc.
pub fn launch_iso(settings: &AppSettings, iso_override: Option<String>) -> (r: Result<String, LaunchError>)
    ensures
        settings.dolphin_path@.len() == 0 ==> r == Err::<String, LaunchError>(LaunchError::DolphinPathUnset),
        settings.dolphin_path@.len() > 0 ==> {
            let iso = match iso_override {
                Some(s) => s@,
                None => settings.iso_path@,
            };
            if iso.len() == 0 {
                r == Err::<String, LaunchError>(LaunchError::NoIsoSelected)
            } else {
                r matches Ok(s) && s@ == iso
            }
        },
{
    if settings.dolphin_path.as_str().unicode_len() == 0 {
        return Err(LaunchError::DolphinPathUnset);
    }
    let iso = match iso_override {
        Some(s) => s,
        None => settings.iso_path.clone(),
    };
    if iso.as_str().unicode_len() == 0 {
        return Err(LaunchError::NoIsoSelected);
    }
    Ok(iso)
}

/// The emulator's command line: batch mode running the disc, in netplay mode when asked.
pub open spec fn launch_args_spec(iso_path: Seq<char>, mode: Seq<char>) -> Seq<Seq<char>> {
    if mode == "netplay"@ {
        seq!["--batch"@, "--exec"@, iso_path, "--netplay"@]
    } else {
        seq!["--batch"@, "--exec"@, iso_path]
    }
}

/// The emulator's command line (see [`launch_args_spec`]).
pub fn launch_args(iso_path: &str, mode: &str) -> (args: Vec<String>)
    ensures
        args@.map_values(|a: String| a@) == launch_args_spec(iso_path@, mode@),
{
    let mut args: Vec<String> = Vec::new();
    args.push(String::from_str("--batch"));
    args.push(String::from_str("--exec"));
    args.push(String::from_str(iso_path));
    if chars_eq(&chars_of(mode), &chars_of("netplay")) {
        args.push(String::from_str("--netplay"));
    }
    assert(args@.map_values(|a: String| a@) =~= launch_args_spec(iso_path@, mode@));
    args
}

/// The disc id to configure for: the one read from the image, else the GNT4 one.
pub fn game_id_or_default(id: Option<String>) -> (r: String)
    ensures
        r@ == match id {
            Some(s) => s@,
            None => GNT4_GAME_ID@,
        },
{
    match id {
        Some(s) => s,
        None => String::from_str(GNT4_GAME_ID),
    }
}

/// Whether a window title is the emulator's game window: it names the
/// emulator and a renderer or the game.
pub open spec fn is_game_window_title_spec(title: Seq<char>) -> bool {
    contains_seq(title, "Dolphin"@) && (contains_seq(title, "Direct3D"@) || contains_seq(title, "OpenGL"@)
        || contains_seq(title, "Vulkan"@) || contains_seq(title, "GNT"@) || contains_seq(title, "NARUTO"@))
}

/// Whether a window title is the emulator's game window (see [`is_game_window_title_spec`]).
pub fn is_game_window_title(title: &str) -> (b: bool)
    ensures
        b == is_game_window_title_spec(title@),
{
    let t = chars_of(title);
    contains_chars(&t, &chars_of("Dolphin")) && (contains_chars(&t, &chars_of("Direct3D")) || contains_chars(
        &t,
        &chars_of("OpenGL"),
    ) || contains_chars(&t, &chars_of("Vulkan")) || contains_chars(&t, &chars_of("GNT")) || contains_chars(
        &t,
        &chars_of("NARUTO"),
    ))
}


/// An XInput pad's state, as `XInputGetState` reports it.
#[derive(Clone, Copy, Debug)]
pub struct XInputGamepad {
    pub buttons: u16,
    pub left_trigger: u8,
    pub right_trigger: u8,
    pub thumb_lx: i16,
    pub thumb_ly: i16,
    pub thumb_rx: i16,
    pub thumb_ry: i16,
}

/// An XInput state report: a packet counter and the pad.
#[derive(Clone, Copy, Debug)]
pub struct XInputState {
    pub packet_number: u32,
    pub gamepad: XInputGamepad,
}

/// How far a trigger must be pulled to count as pressed.
pub const TRIGGER_THRESHOLD: u8 = 30;
/// How far a stick must be pushed to count as a direction.
pub const STICK_DEADZONE: i16 = 8000;

/// The XInput button bit of button `i` in the standard order (the two
/// triggers, 6 and 7, are analog and have none).
pub open spec fn button_mask(i: int) -> u16 {
    if i == 0 {
        0x1000
    } else if i == 1 {
        0x2000
    } else if i == 2 {
        0x4000
    } else if i == 3 {
        0x8000
    } else if i == 4 {
        0x0100
    } else if i == 5 {
        0x0200
    } else if i == 8 {
        0x0020
    } else if i == 9 {
        0x0010
    } else if i == 10 {
        0x0040
    } else if i == 11 {
        0x0080
    } else if i == 12 {
        0x0001
    } else if i == 13 {
        0x0002
    } else if i == 14 {
        0x0004
    } else if i == 15 {
        0x0008
    } else {
        0
    }
}

/// The emulator's name of button `i` in the standard order.
pub open spec fn button_name(i: int) -> Seq<char> {
    if i == 0 {
        "Button A"@
    } else if i == 1 {
        "Button B"@
    } else if i == 2 {
        "Button X"@
    } else if i == 3 {
        "Button Y"@
    } else if i == 4 {
        "Shoulder L"@
    } else if i == 5 {
        "Shoulder R"@
    } else if i == 6 {
        "Trigger L"@
    } else if i == 7 {
        "Trigger R"@
    } else if i == 8 {
        "Back"@
    } else if i == 9 {
        "Start"@
    } else if i == 10 {
        "Thumb L"@
    } else if i == 11 {
        "Thumb R"@
    } else if i == 12 {
        "Pad N"@
    } else if i == 13 {
        "Pad S"@
    } else if i == 14 {
        "Pad W"@
    } else {
        "Pad E"@
    }
}

/// Whether button `i` is pressed: a trigger past the threshold, or the button's bit set.
pub open spec fn button_pressed(gp: XInputGamepad, i: int) -> bool {
    if i == 6 {
        gp.left_trigger > TRIGGER_THRESHOLD
    } else if i == 7 {
        gp.right_trigger > TRIGGER_THRESHOLD
    } else {
        gp.buttons & button_mask(i) != 0
    }
}

/// Button `i`'s bit and name.
fn button_entry(i: usize) -> (r: (u16, &'static str))
    requires
        i < 16,
    ensures
        r.0 == button_mask(i as int),
        r.1@ == button_name(i as int),
{
    match i {
        0 => (0x1000, "Button A"),
        1 => (0x2000, "Button B"),
        2 => (0x4000, "Button X"),
        3 => (0x8000, "Button Y"),
        4 => (0x0100, "Shoulder L"),
        5 => (0x0200, "Shoulder R"),
        6 => (0, "Trigger L"),
        7 => (0, "Trigger R"),
        8 => (0x0020, "Back"),
        9 => (0x0010, "Start"),
        10 => (0x0040, "Thumb L"),
        11 => (0x0080, "Thumb R"),
        12 => (0x0001, "Pad N"),
        13 => (0x0002, "Pad S"),
        14 => (0x0004, "Pad W"),
        _ => (0x0008, "Pad E"),
    }
}

/// Whether button `i` is pressed (see [`button_pressed`]).
fn is_button_pressed(gp: &XInputGamepad, i: usize) -> (b: bool)
    requires
        i < 16,
    ensures
        b == button_pressed(*gp, i as int),
{
    let (mask, _) = button_entry(i);
    if i == 6 {
        gp.left_trigger > TRIGGER_THRESHOLD
    } else if i == 7 {
        gp.right_trigger > TRIGGER_THRESHOLD
    } else {
        gp.buttons & mask != 0
    }
}

/// The 16 buttons' states in the standard order.
pub fn button_states(gp: &XInputGamepad) -> (b: Vec<bool>)
    ensures
        b@.len() == 16,
        forall|i: int| 0 <= i < 16 ==> b@[i] == button_pressed(*gp, i),
{
    let mut b: Vec<bool> = Vec::new();
    for i in 0..16
        invariant
            b@.len() == i,
            forall|j: int| 0 <= j < i ==> b@[j] == button_pressed(*gp, j),
    {
        b.push(is_button_pressed(gp, i));
    }
    b
}

/// The names of the pressed buttons among the first `k`, in order.
pub open spec fn pressed_button_names(gp: XInputGamepad, k: int) -> Seq<Seq<char>>
    decreases k,
{
    if k <= 0 {
        seq![]
    } else {
        pressed_button_names(gp, k - 1) + (if button_pressed(gp, k - 1) {
            seq![button_name(k - 1)]
        } else {
            seq![]
        })
    }
}

/// A name when its condition holds.
pub open spec fn name_if(c: bool, name: Seq<char>) -> Seq<Seq<char>> {
    if c {
        seq![name]
    } else {
        seq![]
    }
}

/// The stick directions pushed past the dead zone, left stick then right,
/// X then Y, positive then negative.
pub open spec fn stick_names(gp: XInputGamepad) -> Seq<Seq<char>> {
    name_if(gp.thumb_lx > STICK_DEADZONE, "Left X+"@) + name_if(gp.thumb_lx < -STICK_DEADZONE, "Left X-"@)
        + name_if(gp.thumb_ly > STICK_DEADZONE, "Left Y+"@) + name_if(gp.thumb_ly < -STICK_DEADZONE, "Left Y-"@)
        + name_if(gp.thumb_rx > STICK_DEADZONE, "Right X+"@) + name_if(gp.thumb_rx < -STICK_DEADZONE, "Right X-"@)
        + name_if(gp.thumb_ry > STICK_DEADZONE, "Right Y+"@) + name_if(gp.thumb_ry < -STICK_DEADZONE, "Right Y-"@)
}

/// Append a name when its condition holds.
fn push_name_if(out: &mut Vec<String>, c: bool, name: &str)
    ensures
        final(out)@.map_values(|s: String| s@) == old(out)@.map_values(|s: String| s@) + name_if(c, name@),
{
    let ghost before = out@.map_values(|s: String| s@);
    if c {
        out.push(String::from_str(name));
    }
    assert(out@.map_values(|s: String| s@) =~= before + name_if(c, name@));
}

/// What a pad reports as pressed, in the emulator's names: the pressed
/// buttons in the standard order, then the pushed stick directions.
pub fn pressed_names(gp: &XInputGamepad) -> (names: Vec<String>)
    ensures
        names@.map_values(|s: String| s@) == pressed_button_names(*gp, 16) + stick_names(*gp),
{
    let mut names: Vec<String> = Vec::new();
    assert(names@.map_values(|s: String| s@) =~= pressed_button_names(*gp, 0));
    for i in 0..16
        invariant
            names@.map_values(|s: String| s@) == pressed_button_names(*gp, i as int),
    {
        let (_, name) = button_entry(i);
        push_name_if(&mut names, is_button_pressed(gp, i), name);
    }
    let ghost buttons = names@.map_values(|s: String| s@);
    let dz = STICK_DEADZONE;
    push_name_if(&mut names, gp.thumb_lx > dz, "Left X+");
    push_name_if(&mut names, gp.thumb_lx < -dz, "Left X-");
    push_name_if(&mut names, gp.thumb_ly > dz, "Left Y+");
    push_name_if(&mut names, gp.thumb_ly < -dz, "Left Y-");
    push_name_if(&mut names, gp.thumb_rx > dz, "Right X+");
    push_name_if(&mut names, gp.thumb_rx < -dz, "Right X-");
    push_name_if(&mut names, gp.thumb_ry > dz, "Right Y+");
    push_name_if(&mut names, gp.thumb_ry < -dz, "Right Y-");
    assert(names@.map_values(|s: String| s@) =~= buttons + stick_names(*gp));
    names
}

} // verus!
