use howlingwind::gcpad::{format_gcpad_section, mapping_for_pad, parse_gcpad_section, updated_gcpad_ini, GCPadMapping};

fn all(m: &GCPadMapping) -> Vec<String> {
    vec![
        m.device.clone(), m.a.clone(), m.b.clone(), m.x.clone(), m.y.clone(), m.z.clone(), m.start.clone(),
        m.l.clone(), m.r.clone(), m.stick_up.clone(), m.stick_down.clone(), m.stick_left.clone(),
        m.stick_right.clone(), m.cstick_up.clone(), m.cstick_down.clone(), m.cstick_left.clone(),
        m.cstick_right.clone(), m.dpad_up.clone(), m.dpad_down.clone(), m.dpad_left.clone(), m.dpad_right.clone(),
    ]
}

fn sample() -> GCPadMapping {
    GCPadMapping {
        device: "SDL/0/Xbox One S Controller".into(),
        a: "Button S".into(),
        b: "Button E".into(),
        x: "".into(),
        y: "Button N".into(),
        z: "Trigger R".into(),
        start: "Start".into(),
        l: "Trigger L".into(),
        r: "Shoulder R".into(),
        stick_up: "Left Y+".into(),
        stick_down: "Left Y-".into(),
        stick_left: "Left X-".into(),
        stick_right: "Left X+".into(),
        cstick_up: "Right Y+".into(),
        cstick_down: "Right Y-".into(),
        cstick_left: "Right X-".into(),
        cstick_right: "Right X+".into(),
        dpad_up: "Pad N".into(),
        dpad_down: "Pad S".into(),
        dpad_left: "Pad W".into(),
        dpad_right: "x = y".into(),
    }
}

fn expected_section(pad: u32, m: &GCPadMapping) -> String {
    let w = |s: &str| if s.is_empty() { String::new() } else { format!("`{}`", s) };
    format!(
        "[GCPad{}]\nDevice = {}\nButtons/A = {}\nButtons/B = {}\nButtons/X = {}\nButtons/Y = {}\nButtons/Z = {}\nButtons/Start = {}\nMain Stick/Up = {}\nMain Stick/Down = {}\nMain Stick/Left = {}\nMain Stick/Right = {}\nMain Stick/Modifier = `Shift`\nMain Stick/Calibration = 100.00 141.42 100.00 141.42 100.00 141.42 100.00 141.42\nC-Stick/Up = {}\nC-Stick/Down = {}\nC-Stick/Left = {}\nC-Stick/Right = {}\nC-Stick/Modifier = `Ctrl`\nC-Stick/Calibration = 100.00 141.42 100.00 141.42 100.00 141.42 100.00 141.42\nTriggers/L = {}\nTriggers/R = {}\nD-Pad/Up = {}\nD-Pad/Down = {}\nD-Pad/Left = {}\nD-Pad/Right = {}",
        pad, m.device, w(&m.a), w(&m.b), w(&m.x), w(&m.y), w(&m.z), w(&m.start), w(&m.stick_up), w(&m.stick_down),
        w(&m.stick_left), w(&m.stick_right), w(&m.cstick_up), w(&m.cstick_down), w(&m.cstick_left),
        w(&m.cstick_right), w(&m.l), w(&m.r), w(&m.dpad_up), w(&m.dpad_down), w(&m.dpad_left), w(&m.dpad_right)
    )
}

fn expected_save(content: &str, pad: u32, mapping: &GCPadMapping) -> String {
    let mut sections: Vec<u32> = Vec::new();
    let mut current: Option<u32> = None;
    for line in content.lines() {
        if line.starts_with("[GCPad") && line.ends_with(']') {
            if let Some(n) = current {
                sections.push(n);
            }
            current = line.trim_start_matches("[GCPad").trim_end_matches(']').parse().ok();
        }
    }
    if let Some(n) = current {
        sections.push(n);
    }
    let new_section = expected_section(pad, mapping);
    let mut found = false;
    let mut parts: Vec<String> = Vec::new();
    for num in &sections {
        if *num == pad {
            parts.push(new_section.clone());
            found = true;
        } else {
            let header = format!("[GCPad{}]", num);
            let start = content.find(&header).unwrap_or(0);
            let end = content[start + header.len()..]
                .find("\n[GCPad")
                .map(|i| start + header.len() + i)
                .unwrap_or(content.len());
            parts.push(content[start..end].trim_end().to_string());
        }
    }
    if !found {
        parts.push(new_section);
    }
    for p in 1..=4u32 {
        if !parts.iter().any(|s| s.contains(&format!("[GCPad{}]", p))) {
            parts.push(format!("[GCPad{}]\nDevice = DInput/0/Keyboard Mouse", p));
        }
    }
    parts.sort_by_key(|s| {
        s.lines()
            .next()
            .and_then(|l| l.trim_start_matches("[GCPad").trim_end_matches(']').parse::<u32>().ok())
            .unwrap_or(0)
    });
    parts.join("\n") + "\n"
}

#[test]
fn default_mapping_is_the_keyboard() {
    let d = GCPadMapping::default();
    assert_eq!(d.device, "DInput/0/Keyboard Mouse");
    assert_eq!((d.a.as_str(), d.start.as_str(), d.dpad_right.as_str()), ("X", "RETURN", "H"));
}

#[test]
fn section_text() {
    let m = sample();
    assert_eq!(format_gcpad_section(2, &m), expected_section(2, &m));
    assert_eq!(format_gcpad_section(1, &GCPadMapping::default()), expected_section(1, &GCPadMapping::default()));
    assert!(format_gcpad_section(3, &m).starts_with("[GCPad3]\nDevice = SDL/0/Xbox One S Controller\nButtons/A = `Button S`\n"));
}

#[test]
fn section_lines_are_read() {
    let m = parse_gcpad_section(&[
        "  Device = SDL/0/Pad  ",
        "Buttons/A = `Button S`",
        "Buttons/B=``Button E``",
        "Triggers/L = ",
        "Unknown/Key = 1",
        "no equals sign",
        "D-Pad/Right = a = b",
    ]);
    assert_eq!(m.device, "SDL/0/Pad");
    assert_eq!(m.a, "Button S");
    assert_eq!(m.b, "Button E");
    assert_eq!(m.l, "");
    assert_eq!(m.dpad_right, "a = b");
    assert_eq!(m.x, "C");
}

#[test]
fn written_section_reads_back() {
    let m = sample();
    let text = format_gcpad_section(2, &m);
    let back = mapping_for_pad(&text, 2);
    assert_eq!(all(&back), all(&m));
    let lines: Vec<&str> = text.lines().skip(1).collect();
    assert_eq!(all(&parse_gcpad_section(&lines)), all(&m));
}

#[test]
fn mapping_for_a_pad_in_a_file() {
    let content = "[GCPad1]\nDevice = A\n[GCPad2]\r\nDevice = B\r\nButtons/A = `Q`\r\n[GCPad3]\nDevice = C\n";
    assert_eq!(mapping_for_pad(content, 2).device, "B");
    assert_eq!(mapping_for_pad(content, 2).a, "Q");
    assert_eq!(mapping_for_pad(content, 3).device, "C");
    assert_eq!(all(&mapping_for_pad(content, 4)), all(&GCPadMapping::default()));
    assert_eq!(all(&mapping_for_pad("", 1)), all(&GCPadMapping::default()));
}

#[test]
fn saving_into_files() {
    let m = sample();
    let cases = [
        "",
        "[GCPad1]\nDevice = DInput/0/Keyboard Mouse\n[GCPad2]\nDevice = XInput/0/Gamepad\nButtons/A = `Button A`\n",
        "[GCPad3]\nDevice = X\n\n[GCPad1]\nDevice = Y\n",
        "junk before\n[GCPad4]\nDevice = Z\n[GCPad2]\nDevice = old\n[GCPad9]\nDevice = far\n",
        "[GCPad02]\nDevice = W\n",
        "[GCPadx]\nDevice = V\n[GCPad1]\nDevice = U   \n\n",
    ];
    for pad in 1..=4u32 {
        for c in cases.iter() {
            assert_eq!(updated_gcpad_ini(c, pad, &m), expected_save(c, pad, &m), "pad {} content {:?}", pad, c);
        }
    }
}

#[test]
fn saved_mapping_reads_back_from_the_file() {
    let m = sample();
    let content = "[GCPad1]\nDevice = DInput/0/Keyboard Mouse\n[GCPad2]\nDevice = XInput/0/Gamepad\n";
    let saved = updated_gcpad_ini(content, 2, &m);
    assert_eq!(all(&mapping_for_pad(&saved, 2)), all(&m));
    assert_eq!(mapping_for_pad(&saved, 1).device, "DInput/0/Keyboard Mouse");
    assert_eq!(mapping_for_pad(&saved, 4).device, "DInput/0/Keyboard Mouse");
}

#[test]
fn saved_into_a_file_without_sections_reads_back() {
    let m = sample();
    for content in ["", "; controller settings\n", "Device = nothing\r\n\n"] {
        for pad in [1u32, 3, 4, 7] {
            let saved = updated_gcpad_ini(content, pad, &m);
            assert_eq!(all(&mapping_for_pad(&saved, pad)), all(&m), "pad {} content {:?}", pad, content);
        }
    }
}

#[test]
fn formatted_sections_parse_back_for_every_port() {
    let mut m = sample();
    m.a = String::new();
    m.dpad_right = String::new();
    for pad in [0u32, 1, 4, 12, 4294967295] {
        let text = format_gcpad_section(pad, &m);
        let lines: Vec<&str> = text.lines().collect();
        assert_eq!(all(&parse_gcpad_section(&lines)), all(&m), "pad {}", pad);
    }
}
