use audio_devices::{
    has_valid_input_config, list_input_devices, list_output_devices, CpalDeviceInfo,
    InputProbe, OutputProbe,
};

fn input(device: u32, name: Option<&str>, supported: bool, default: bool) -> InputProbe<u32> {
    InputProbe {
        device,
        name: name.map(|s| s.to_string()),
        has_supported_config: supported,
        has_default_config: default,
    }
}

fn output(device: u32, name: Option<&str>) -> OutputProbe<u32> {
    OutputProbe { device, name: name.map(|s| s.to_string()) }
}

fn summary(entries: &[CpalDeviceInfo<u32>]) -> Vec<(String, String, bool, u32)> {
    entries
        .iter()
        .map(|e| (e.index.clone(), e.name.clone(), e.is_default, e.device))
        .collect()
}

fn row(index: &str, name: &str, is_default: bool, device: u32) -> (String, String, bool, u32) {
    (index.to_string(), name.to_string(), is_default, device)
}

#[test]
fn input_skips_device_without_configs() {
    let probes = vec![
        input(1, Some("A"), true, true),
        input(2, Some("B"), false, true),
        input(3, Some("C"), true, true),
    ];
    let r = list_input_devices::<u32, String>(Some("A".to_string()), Ok(probes)).unwrap();
    assert_eq!(summary(&r), vec![row("0", "A", true, 1), row("1", "C", false, 3)]);
}

#[test]
fn output_with_no_devices_is_empty() {
    let r = list_output_devices::<u32, String>(Some("X".to_string()), Ok(Vec::new()));
    assert!(matches!(r, Ok(ref v) if v.is_empty()));
}

#[test]
fn input_with_no_devices_is_empty() {
    let r = list_input_devices::<u32, String>(None, Ok(Vec::new()));
    assert!(matches!(r, Ok(ref v) if v.is_empty()));
}

#[test]
fn enumeration_failure_is_passed_on() {
    let ri = list_input_devices::<u32, String>(None, Err("backend unavailable".to_string()));
    assert_eq!(ri.err(), Some("backend unavailable".to_string()));
    let ro = list_output_devices::<u32, String>(Some("A".to_string()), Err("no host".to_string()));
    assert_eq!(ro.err(), Some("no host".to_string()));
}

#[test]
fn output_indices_are_positions() {
    let probes: Vec<OutputProbe<u32>> = (0..12).map(|d| output(d, Some("dev"))).collect();
    let r = list_output_devices::<u32, String>(None, Ok(probes)).unwrap();
    let indices: Vec<String> = r.iter().map(|e| e.index.clone()).collect();
    let expected: Vec<String> = (0..12).map(|k: u32| k.to_string()).collect();
    assert_eq!(indices, expected);
    assert_eq!(r[10].index, "10");
    assert_eq!(r[11].device, 11);
}

#[test]
fn input_indices_are_dense_over_kept_devices() {
    let probes = vec![
        input(1, Some("a"), false, false),
        input(2, Some("b"), true, true),
        input(3, Some("c"), true, false),
        input(4, Some("d"), true, true),
        input(5, Some("e"), true, true),
    ];
    let r = list_input_devices::<u32, String>(None, Ok(probes)).unwrap();
    assert_eq!(
        summary(&r),
        vec![row("0", "b", false, 2), row("1", "d", false, 4), row("2", "e", false, 5)]
    );
}

#[test]
fn input_drops_device_without_default_config() {
    let probes = vec![input(1, Some("A"), true, false), input(2, Some("B"), true, true)];
    let r = list_input_devices::<u32, String>(Some("A".to_string()), Ok(probes)).unwrap();
    assert_eq!(summary(&r), vec![row("0", "B", false, 2)]);
}

#[test]
fn input_with_no_usable_device_is_empty() {
    let probes = vec![input(1, Some("A"), false, false), input(2, Some("B"), false, true)];
    let r = list_input_devices::<u32, String>(Some("A".to_string()), Ok(probes)).unwrap();
    assert!(r.is_empty());
}

#[test]
fn output_keeps_every_device() {
    let probes = vec![output(1, Some("Speakers")), output(2, None), output(3, Some("HDMI"))];
    let r = list_output_devices::<u32, String>(Some("HDMI".to_string()), Ok(probes)).unwrap();
    assert_eq!(
        summary(&r),
        vec![
            row("0", "Speakers", false, 1),
            row("1", "Unknown", false, 2),
            row("2", "HDMI", true, 3)
        ]
    );
}

#[test]
fn distinct_names_give_at_most_one_default() {
    let probes = vec![output(1, Some("A")), output(2, Some("B")), output(3, Some("C"))];
    let r = list_output_devices::<u32, String>(Some("B".to_string()), Ok(probes)).unwrap();
    assert_eq!(r.iter().filter(|e| e.is_default).count(), 1);
    assert!(r[1].is_default);
}

#[test]
fn shared_default_name_flags_both() {
    let probes = vec![
        input(1, Some("Mic"), true, true),
        input(2, Some("Other"), true, true),
        input(3, Some("Mic"), true, true),
    ];
    let r = list_input_devices::<u32, String>(Some("Mic".to_string()), Ok(probes)).unwrap();
    let flags: Vec<bool> = r.iter().map(|e| e.is_default).collect();
    assert_eq!(flags, vec![true, false, true]);
}

#[test]
fn no_default_flags_nothing() {
    let ri = list_input_devices::<u32, String>(
        None,
        Ok(vec![input(1, Some("A"), true, true), input(2, None, true, true)]),
    )
    .unwrap();
    assert!(ri.iter().all(|e| !e.is_default));
    let ro = list_output_devices::<u32, String>(
        None,
        Ok(vec![output(1, Some("A")), output(2, None)]),
    )
    .unwrap();
    assert!(ro.iter().all(|e| !e.is_default));
}

#[test]
fn failed_name_lookup_lists_unknown() {
    let ri = list_input_devices::<u32, String>(
        Some("A".to_string()),
        Ok(vec![input(1, None, true, true), input(2, None, false, true)]),
    )
    .unwrap();
    assert_eq!(summary(&ri), vec![row("0", "Unknown", false, 1)]);
    let ro = list_output_devices::<u32, String>(None, Ok(vec![output(7, None)])).unwrap();
    assert_eq!(summary(&ro), vec![row("0", "Unknown", false, 7)]);
}

#[test]
fn unknown_default_name_matches_failed_lookup() {
    let ro = list_output_devices::<u32, String>(
        Some("Unknown".to_string()),
        Ok(vec![output(1, None), output(2, Some("A"))]),
    )
    .unwrap();
    assert_eq!(summary(&ro), vec![row("0", "Unknown", true, 1), row("1", "A", false, 2)]);
}

#[test]
fn validity_check_needs_both_reports() {
    assert!(has_valid_input_config(&input(1, None, true, true)));
    assert!(!has_valid_input_config(&input(1, None, true, false)));
    assert!(!has_valid_input_config(&input(1, None, false, true)));
    assert!(!has_valid_input_config(&input(1, None, false, false)));
}
