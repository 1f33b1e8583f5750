use waybar_manager::errors::ManagerError;
use waybar_manager::monitor::find_matches;
use waybar_manager::monitor::lists_match;
use waybar_manager::monitor::other_waybar_running;
use waybar_manager::monitor::parse_monitors;
use waybar_manager::monitor::waybar_pids_to_kill;
use waybar_manager::window_manager::detect_window_manager;
use waybar_manager::window_manager::WindowManager;

#[test]
fn test_parse_hyprland_monitors() {
    let output = "Monitor eDP-1 (ID 0):\n\t1366x768@60.00500 at 1366x0\nMonitor HDMI-A-1 (ID 1):\n\t1920x1080@60.00 at 0x0";

    let monitors = parse_monitors(&WindowManager::Hyprland, output).unwrap();
    assert_eq!(monitors, vec!["eDP-1", "HDMI-A-1"]);
}

#[test]
fn test_find_matches() {
    let configured = vec!["eDP-1".to_string(), "HDMI-1".to_string()];
    let connected = vec!["eDP-1".to_string(), "HDMI-A-1".to_string()];

    let matches = find_matches(&configured, &connected);
    assert_eq!(matches.len(), 1);
    assert!(matches.contains(&"eDP-1".to_string()));
}

#[test]
fn test_lists_match() {
    let list1 = vec!["eDP-1".to_string(), "HDMI-A-1".to_string()];
    let list2 = vec!["HDMI-A-1".to_string(), "eDP-1".to_string()];

    assert!(lists_match(&list1, &list2));

    let list3 = vec!["eDP-1".to_string()];
    assert!(!lists_match(&list1, &list3));
}

#[test]
fn test_parse_monitors_no_match_fails() {
    let output = "no monitor lines here\njust noise";
    let result = parse_monitors(&WindowManager::Hyprland, output);
    assert!(matches!(result, Err(ManagerError::NoMonitorsDetected)));
}

#[test]
fn test_parse_monitors_hyprland_needs_space() {
    // A line whose keyword runs into the name matches nothing.
    let result = parse_monitors(&WindowManager::Hyprland, "MonitoreDP-1 (ID 0):");
    assert!(matches!(result, Err(ManagerError::NoMonitorsDetected)));
}

#[test]
fn test_parse_mango_monitors() {
    let output = "DP-1 selmon 1\nDP-2 other 0\n   HDMI-A-1  selmon tags";
    let monitors = parse_monitors(&WindowManager::Mango, output).unwrap();
    assert_eq!(monitors, vec!["DP-1", "HDMI-A-1"]);
}

#[test]
fn test_parse_niri_monitors() {
    let output = "Output \"Dell Inc.\" (DP-3)\n  Mode: 2560x1440\nOutput \"BenQ\" (HDMI-A-2)";
    let monitors = parse_monitors(&WindowManager::Niri, output).unwrap();
    assert_eq!(monitors, vec!["DP-3", "HDMI-A-2"]);
}

#[test]
fn test_parse_niri_rejects_empty_parens() {
    let result = parse_monitors(&WindowManager::Niri, "Output \"X\" ()");
    assert!(matches!(result, Err(ManagerError::NoMonitorsDetected)));
}

#[test]
fn test_parse_monitors_keeps_duplicates_in_order() {
    let output = "Monitor eDP-1 (ID 0):\nMonitor eDP-1 (ID 1):";
    let monitors = parse_monitors(&WindowManager::Hyprland, output).unwrap();
    assert_eq!(monitors, vec!["eDP-1", "eDP-1"]);
}

#[test]
fn test_find_matches_symmetric_membership() {
    let a = vec!["a".to_string(), "b".to_string(), "c".to_string()];
    let b = vec!["c".to_string(), "a".to_string()];

    let mut ab = find_matches(&a, &b);
    let mut ba = find_matches(&b, &a);
    ab.sort();
    ba.sort();
    assert_eq!(ab, ba);
    assert_eq!(ab, vec!["a".to_string(), "c".to_string()]);
}

#[test]
fn test_find_matches_empty_intersection() {
    let a = vec!["a".to_string()];
    let b = vec!["b".to_string()];
    assert!(find_matches(&a, &b).is_empty());
}

#[test]
fn test_lists_match_same_length_different_sets() {
    let list1 = vec!["a".to_string(), "b".to_string()];
    let list2 = vec!["a".to_string(), "c".to_string()];
    assert!(!lists_match(&list1, &list2));
}

#[test]
fn test_detect_window_manager_priority() {
    assert_eq!(detect_window_manager(true, true, true).unwrap(), WindowManager::Hyprland);
    assert_eq!(detect_window_manager(false, true, true).unwrap(), WindowManager::Mango);
    assert_eq!(detect_window_manager(false, false, true).unwrap(), WindowManager::Niri);
    assert!(matches!(
        detect_window_manager(false, false, false),
        Err(ManagerError::NoSupportedWindowManager)
    ));
}

#[test]
fn test_window_manager_as_str() {
    assert_eq!(WindowManager::Hyprland.as_str(), "hyprland");
    assert_eq!(WindowManager::Mango.as_str(), "mango");
    assert_eq!(WindowManager::Niri.as_str(), "niri");
}

#[test]
fn test_other_waybar_running() {
    assert!(other_waybar_running("123\n456\n", 123));
    assert!(!other_waybar_running("123\n", 123));
    assert!(!other_waybar_running("", 123));
    // A line that is no process id still counts as another process.
    assert!(other_waybar_running("abc\n", 123));
}

#[test]
fn test_waybar_pids_to_kill() {
    let pids = waybar_pids_to_kill("100 200 300", 200);
    assert_eq!(pids, vec!["100".to_string(), "300".to_string()]);

    // Tokens that are no process ids are left alone.
    let pids = waybar_pids_to_kill("100 abc 300", 300);
    assert_eq!(pids, vec!["100".to_string()]);

    assert!(waybar_pids_to_kill("", 1).is_empty());
}
