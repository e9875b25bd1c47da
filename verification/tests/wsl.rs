use wsl_keeper::wsl::{
    decode_wsl_output, exec_args, exec_failure_message, looks_like_utf16_le, parse_distro_list,
    resolve_distro, utf16_be, utf16_le, DistroInfo,
};

#[test]
fn parses_distro_list() {
    let sample = "  NAME            STATE           VERSION\n* Ubuntu-24.04    Running         2\n  Debian          Stopped         2\n";
    let list = parse_distro_list(sample);
    assert_eq!(list.len(), 2);
    assert_eq!(list[0].name, "Ubuntu-24.04");
    assert!(list[0].is_default);
    assert_eq!(list[1].name, "Debian");
}

#[test]
fn resolves_ubuntu_prefix_to_unique_versioned_distro() {
    let distros = vec![DistroInfo {
        name: "Ubuntu-22.04".into(),
        state: "Stopped".into(),
        version: 2,
        is_default: true,
    }];
    assert_eq!(
        resolve_distro("Ubuntu", &distros).as_deref(),
        Some("Ubuntu-22.04")
    );
    assert_eq!(
        resolve_distro("", &distros).as_deref(),
        Some("Ubuntu-22.04")
    );
}

#[test]
fn prefers_exact_ubuntu_when_several_exist() {
    let distros = vec![
        DistroInfo {
            name: "Ubuntu".into(),
            state: "Stopped".into(),
            version: 2,
            is_default: false,
        },
        DistroInfo {
            name: "Ubuntu-22.04".into(),
            state: "Stopped".into(),
            version: 2,
            is_default: true,
        },
    ];
    assert_eq!(resolve_distro("Ubuntu", &distros).as_deref(), Some("Ubuntu"));
    assert_eq!(
        resolve_distro("Ubuntu-22.04", &distros).as_deref(),
        Some("Ubuntu-22.04")
    );
}

fn d(name: &str, default: bool) -> DistroInfo {
    DistroInfo { name: name.into(), state: "Stopped".into(), version: 2, is_default: default }
}

#[test]
fn parses_names_with_spaces_versions_and_noise() {
    let sample = "Windows Subsystem for Linux Distributions:\r\n* My Distro   Running   1\r\n  Other Stopped x\r\n  bad line\r\n\r\n";
    let list = parse_distro_list(sample);
    assert_eq!(list.len(), 2);
    assert_eq!(list[0].name, "My Distro");
    assert_eq!(list[0].state, "Running");
    assert_eq!(list[0].version, 1);
    assert!(list[0].is_default);
    assert_eq!(list[1].name, "Other");
    assert_eq!(list[1].version, 2);
    assert!(!list[1].is_default);
    assert!(parse_distro_list("").is_empty());
}

#[test]
fn resolution_rules() {
    assert_eq!(resolve_distro("Ubuntu", &[]), None);
    let several = vec![d("Ubuntu-20.04", false), d("Ubuntu-22.04", true), d("Debian", false)];
    assert_eq!(resolve_distro("  ubuntu ", &several).as_deref(), Some("Ubuntu-22.04"));
    assert_eq!(resolve_distro("DEBIAN", &several).as_deref(), Some("Debian"));
    assert_eq!(resolve_distro("Arch", &several).as_deref(), Some("Ubuntu-22.04"));
    let no_default = vec![d("A", false), d("B", false)];
    assert_eq!(resolve_distro("C", &no_default), None);
    let dotted = vec![d("Ubuntu.1", false), d("Ubuntu.2", false), d("X", false)];
    assert_eq!(resolve_distro("Ubuntu", &dotted), None);
    let one = vec![d("Only", false)];
    assert_eq!(resolve_distro("", &one).as_deref(), Some("Only"));
}

#[test]
fn resolving_twice_changes_nothing() {
    let several = vec![d("Ubuntu-20.04", false), d("Ubuntu-22.04", true), d("Debian", false)];
    let first = resolve_distro("ubuntu", &several).unwrap();
    assert_eq!(resolve_distro(&first, &several).as_deref(), Some(first.as_str()));
}

#[test]
fn decodes_utf16_and_utf8_output() {
    let text = "Ubuntu  Running  2\n";
    let le: Vec<u8> = text.encode_utf16().flat_map(|u| u.to_le_bytes()).collect();
    let be: Vec<u8> = text.encode_utf16().flat_map(|u| u.to_be_bytes()).collect();
    assert!(looks_like_utf16_le(&le));
    assert_eq!(decode_wsl_output(&le), text);
    let mut bom_le = vec![0xFF, 0xFE];
    bom_le.extend_from_slice(&le);
    assert_eq!(decode_wsl_output(&bom_le), text);
    let mut bom_be = vec![0xFE, 0xFF];
    bom_be.extend_from_slice(&be);
    assert_eq!(decode_wsl_output(&bom_be), text);
    assert_eq!(utf16_le(&le), text);
    assert_eq!(utf16_be(&be), text);
    assert!(!looks_like_utf16_le(text.as_bytes()));
    assert_eq!(decode_wsl_output(text.as_bytes()), text);
    assert_eq!(decode_wsl_output(&[0x66, 0x6f, 0xff]), "fo\u{FFFD}");
    assert_eq!(utf16_le(&[0x41, 0x00, 0x42]), "A");
}

#[test]
fn builds_exec_arguments() {
    assert_eq!(
        exec_args("Ubuntu", "ls", false, true),
        vec!["-d", "Ubuntu", "--", "bash", "-lc", "ls"]
    );
    assert_eq!(
        exec_args("Ubuntu", "ls", true, false),
        vec!["-d", "Ubuntu", "-u", "root", "--exec", "/bin/sh", "-c", "ls"]
    );
}

#[test]
fn failure_message_prefers_stderr() {
    assert_eq!(
        exec_failure_message("exit code: 32", "  boom \n", "out"),
        "WSL exec failed (exit code: 32): boom"
    );
    assert_eq!(
        exec_failure_message("exit code: 1", "  ", " out\n"),
        "WSL exec failed (exit code: 1): out"
    );
}

#[test]
fn decodes_non_ascii_utf16_with_a_byte_order_mark() {
    let text = "状态 é 🙂 ok";
    let mut bytes = vec![0xFF, 0xFE];
    bytes.extend(text.encode_utf16().flat_map(|u| u.to_le_bytes()));
    assert_eq!(decode_wsl_output(&bytes), text);
    let short = "abcd";
    let le: Vec<u8> = short.encode_utf16().flat_map(|u| u.to_le_bytes()).collect();
    assert_eq!(decode_wsl_output(&le), short);
}
