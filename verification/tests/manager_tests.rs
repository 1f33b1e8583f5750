use waybar_manager::cache::all_monitors_covered;
use waybar_manager::cache::calculate_template_hash;
use waybar_manager::cache::check_generated_files_exist;
use waybar_manager::cache::get_cache_path;
use waybar_manager::cache::get_current_timestamp;
use waybar_manager::cache::should_regenerate;
use waybar_manager::cache::u64_to_string;
use waybar_manager::cache::CacheEntry;
use waybar_manager::config::config_needs_update;
use waybar_manager::config::default_mode;
use waybar_manager::config::get_config_path;
use waybar_manager::config::parse_monitor_selection;
use waybar_manager::config::select_target_monitors;
use waybar_manager::config::Config;
use waybar_manager::config::Display;
use waybar_manager::errors::ManagerError;
use waybar_manager::templates::determine_config_assignments;
use waybar_manager::templates::extract_markers;
use waybar_manager::templates::generate_configs;
use waybar_manager::templates::get_generated_config_path;
use waybar_manager::templates::get_templates_path;
use waybar_manager::templates::parse_jsonc_templates;
use waybar_manager::templates::strip_comments;
use waybar_manager::templates::TemplateType;
use waybar_manager::window_manager::WindowManager;

fn strings(names: &[&str]) -> Vec<String> {
    names.iter().map(|s| s.to_string()).collect()
}

fn config_with(preferred: &str, available: &[&str], mode: &str) -> Config {
    Config {
        display: Display {
            preferred_monitor: preferred.to_string(),
            available_monitors: strings(available),
            mode: mode.to_string(),
        },
    }
}

fn entry_with(hash: &str, monitors: &[&str], preferred: &str) -> CacheEntry {
    CacheEntry {
        template_hash: hash.to_string(),
        monitors: strings(monitors),
        preferred_monitor: preferred.to_string(),
        timestamp: 0,
    }
}

#[test]
fn test_should_regenerate_without_cache() {
    let monitors = strings(&["eDP-1"]);
    assert!(should_regenerate(None, "h", &monitors, "eDP-1", true));
    assert!(should_regenerate(None, "h", &monitors, "eDP-1", false));
}

#[test]
fn test_should_regenerate_missing_files() {
    let entry = entry_with("h", &["eDP-1"], "eDP-1");
    let monitors = strings(&["eDP-1"]);
    assert!(should_regenerate(Some(&entry), "h", &monitors, "eDP-1", false));
}

#[test]
fn test_should_regenerate_cache_hit_is_order_insensitive() {
    let entry = entry_with("h", &["HDMI-A-1", "eDP-1"], "eDP-1");
    let monitors = strings(&["eDP-1", "HDMI-A-1"]);
    assert!(!should_regenerate(Some(&entry), "h", &monitors, "eDP-1", true));
}

#[test]
fn test_should_regenerate_on_changes() {
    let entry = entry_with("h", &["eDP-1"], "eDP-1");
    let monitors = strings(&["eDP-1"]);
    // Template content changed.
    assert!(should_regenerate(Some(&entry), "other", &monitors, "eDP-1", true));
    // Preferred monitor changed.
    assert!(should_regenerate(Some(&entry), "h", &monitors, "HDMI-A-1", true));
    // Monitor set changed.
    let now = strings(&["eDP-1", "HDMI-A-1"]);
    assert!(should_regenerate(Some(&entry), "h", &now, "eDP-1", true));
    // Nothing changed.
    assert!(!should_regenerate(Some(&entry), "h", &monitors, "eDP-1", true));
}

#[test]
fn test_second_run_uses_cache() {
    // The record written right after a generation run decides against a
    // second generation while nothing changes.
    let hash = calculate_template_hash("[{\"layer\": \"top\"}]");
    let monitors = strings(&["eDP-1", "HDMI-A-1"]);
    let entry = CacheEntry::fresh(hash.clone(), monitors.clone(), "eDP-1".to_string());
    assert!(!should_regenerate(Some(&entry), &hash, &monitors, "eDP-1", true));
}

#[test]
fn test_calculate_template_hash_known_values() {
    // 64-bit FNV-1a of the empty input and of "a".
    assert_eq!(calculate_template_hash(""), "14695981039346656037");
    assert_eq!(calculate_template_hash("a"), "12638187200555641996");
    // Deterministic, and sensitive to content.
    assert_eq!(calculate_template_hash("x"), calculate_template_hash("x"));
    assert_ne!(calculate_template_hash("x"), calculate_template_hash("y"));
}

#[test]
fn test_u64_to_string() {
    assert_eq!(u64_to_string(0), "0");
    assert_eq!(u64_to_string(7), "7");
    assert_eq!(u64_to_string(1234567890), "1234567890");
    assert_eq!(u64_to_string(u64::MAX), "18446744073709551615");
}

#[test]
fn test_get_current_timestamp_is_recent() {
    assert!(get_current_timestamp() > 0);
}

#[test]
fn test_check_generated_files_exist_trivial_cases() {
    let none: Vec<String> = Vec::new();
    assert!(check_generated_files_exist(&none, &WindowManager::Hyprland, "/nonexistent-root"));
    let monitors = strings(&["eDP-1"]);
    assert!(!check_generated_files_exist(&monitors, &WindowManager::Hyprland, "/nonexistent-root"));
}

#[test]
fn test_paths() {
    assert_eq!(
        get_cache_path("/home/u"),
        "/home/u/.local/share/omynix/waybar-manager/waybar_cache.toml"
    );
    assert_eq!(
        get_config_path("/home/u"),
        "/home/u/.local/share/omynix/waybar-manager/config.toml"
    );
    assert_eq!(
        get_templates_path("/home/u", &WindowManager::Niri),
        "/home/u/.config/waybar/templates/niri.jsonc"
    );
    assert_eq!(
        get_generated_config_path("/home/u", &WindowManager::Hyprland, "eDP-1", &TemplateType::Full),
        "/home/u/.config/waybar/generated/hyprland_eDP-1_full. json"
    );
    assert_eq!(
        get_generated_config_path(
            "/home/u",
            &WindowManager::Mango,
            "DP-2",
            &TemplateType::Custom("extra".to_string())
        ),
        "/home/u/.config/waybar/generated/mango_DP-2_extra. json"
    );
}

#[test]
fn test_strip_comments_keeps_string_literals() {
    let template = "{\n  \"url\": \"http://example.com\" // trailing note\n}";
    let cleaned = strip_comments(template);
    assert_eq!(cleaned, "{\n  \"url\": \"http://example.com\" \n}");
    assert!(cleaned.contains("http://example.com"));
}

#[test]
fn test_strip_comments_round_trip_through_parser() {
    let template = "[\n// TPL:FULL\n{\"url\": \"http://example.com\"}\n]";
    let templates = parse_jsonc_templates(template).unwrap();
    assert_eq!(templates.len(), 1);
    let url = templates[0].config.get("url").unwrap().as_str().unwrap();
    assert_eq!(url, "http://example.com");
}

#[test]
fn test_template_type_from_comment() {
    assert_eq!(TemplateType::from_comment("// TPL:FULL"), Some(TemplateType::Full));
    assert_eq!(TemplateType::from_comment("// TPL:SIMPLE"), Some(TemplateType::Simple));
    assert_eq!(
        TemplateType::from_comment("TPL: sidebar "),
        Some(TemplateType::Custom("sidebar".to_string()))
    );
    // A custom marker is read out of a comment too: the name is whatever
    // (trimmed) follows the first marker prefix.
    assert_eq!(
        TemplateType::from_comment("// TPL:sidebar"),
        Some(TemplateType::Custom("sidebar".to_string()))
    );
    assert_eq!(TemplateType::from_comment("// plain note"), None);
}

#[test]
fn test_extract_markers_in_file_order() {
    let text = "[\n// TPL:SIMPLE\n{},\n  // TPL:FULL\n{}\n]";
    let markers = extract_markers(text);
    assert_eq!(markers, vec![TemplateType::Simple, TemplateType::Full]);
}

#[test]
fn test_parse_jsonc_templates_with_markers() {
    let text = "[\n// TPL:FULL\n{\"layer\": \"top\"},\n// TPL:SIMPLE\n{\"layer\": \"bottom\"}\n]";
    let templates = parse_jsonc_templates(text).unwrap();
    assert_eq!(templates.len(), 2);
    assert_eq!(templates[0].template_type, TemplateType::Full);
    assert_eq!(templates[1].template_type, TemplateType::Simple);
    assert_eq!(
        templates[0].config,
        serde_json::from_str::<serde_json::Value>("{\"layer\": \"top\"}").unwrap()
    );
    assert_eq!(
        templates[1].config,
        serde_json::from_str::<serde_json::Value>("{\"layer\": \"bottom\"}").unwrap()
    );
}

#[test]
fn test_parse_jsonc_templates_positional_fallback() {
    let text = "[{\"a\": 1}, {\"b\": 2}, {\"c\": 3}]";
    let templates = parse_jsonc_templates(text).unwrap();
    assert_eq!(templates.len(), 3);
    assert_eq!(templates[0].template_type, TemplateType::Full);
    assert_eq!(templates[1].template_type, TemplateType::Simple);
    assert_eq!(templates[2].template_type, TemplateType::Custom("template_2".to_string()));
}

#[test]
fn test_parse_jsonc_templates_empty_array() {
    assert!(matches!(parse_jsonc_templates("[]"), Err(ManagerError::NoTemplatesFound)));
}

#[test]
fn test_parse_jsonc_templates_invalid_json() {
    let result = parse_jsonc_templates("not json at all");
    match result {
        Err(ManagerError::TemplateParseError(excerpt)) => {
            assert_eq!(excerpt, "not json at all");
        }
        other => panic!("unexpected result: {:?}", other),
    }
}

#[test]
fn test_assignment_single_monitor_always_full() {
    let connected = strings(&["A"]);
    for mode in ["single", "multiple"] {
        for preferred in ["A", "B", ""] {
            let cfg = config_with(preferred, &["A"], mode);
            let assignments = determine_config_assignments(&cfg, &connected);
            assert_eq!(assignments.len(), 1);
            assert_eq!(assignments[0].0, "A");
            assert_eq!(assignments[0].1, TemplateType::Full);
        }
    }
}

#[test]
fn test_assignment_multiple_monitors() {
    let connected = strings(&["A", "B"]);
    let cfg = config_with("B", &["A", "B"], "multiple");
    let assignments = determine_config_assignments(&cfg, &connected);
    assert_eq!(assignments.len(), 2);
    for (monitor, t) in &assignments {
        if monitor == "B" {
            assert_eq!(*t, TemplateType::Full);
        } else {
            assert_eq!(monitor, "A");
            assert_eq!(*t, TemplateType::Simple);
        }
    }
}

#[test]
fn test_generate_configs_injects_output() {
    let text = "[\n// TPL:FULL\n{\"layer\": \"top\"},\n// TPL:SIMPLE\n{\"layer\": \"bottom\"}\n]";
    let templates = parse_jsonc_templates(text).unwrap();
    let cfg = config_with("eDP-1", &["eDP-1", "HDMI-A-1"], "multiple");
    let connected = strings(&["eDP-1", "HDMI-A-1"]);
    let assignments = determine_config_assignments(&cfg, &connected);
    let generated = generate_configs(&templates, &assignments, &WindowManager::Hyprland, "/h")
        .unwrap();
    assert_eq!(generated.len(), 2);
    for g in &generated {
        let doc: serde_json::Value = serde_json::from_str(&g.contents).unwrap();
        let output = doc.get("output").unwrap().as_str().unwrap();
        if output == "eDP-1" {
            assert_eq!(doc.get("layer").unwrap().as_str().unwrap(), "top");
            assert_eq!(g.path, "/h/.config/waybar/generated/hyprland_eDP-1_full. json");
        } else {
            assert_eq!(output, "HDMI-A-1");
            assert_eq!(doc.get("layer").unwrap().as_str().unwrap(), "bottom");
            assert_eq!(g.path, "/h/.config/waybar/generated/hyprland_HDMI-A-1_simple. json");
        }
    }
}

#[test]
fn test_generate_configs_missing_variant() {
    let templates = parse_jsonc_templates("[\n// TPL:FULL\n{\"layer\": \"top\"}\n]").unwrap();
    let assignments = vec![("eDP-1".to_string(), TemplateType::Simple)];
    let result = generate_configs(&templates, &assignments, &WindowManager::Hyprland, "/h");
    assert!(matches!(result, Err(ManagerError::TemplateVariantMissing(TemplateType::Simple))));
}

#[test]
fn test_generation_twice_is_stable_and_cached() {
    // Rendering twice from an unchanged template and monitor set gives
    // byte-identical documents, and the cache written by the first run
    // makes the second run's decision false.
    let text = "[\n// TPL:FULL\n{\"layer\": \"top\"},\n// TPL:SIMPLE\n{\"layer\": \"bottom\"}\n]";
    let cfg = config_with("eDP-1", &["eDP-1", "HDMI-A-1"], "multiple");
    let connected = strings(&["eDP-1", "HDMI-A-1"]);

    let templates1 = parse_jsonc_templates(text).unwrap();
    let assignments1 = determine_config_assignments(&cfg, &connected);
    let run1 = generate_configs(&templates1, &assignments1, &WindowManager::Hyprland, "/h")
        .unwrap();

    let templates2 = parse_jsonc_templates(text).unwrap();
    let assignments2 = determine_config_assignments(&cfg, &connected);
    let run2 = generate_configs(&templates2, &assignments2, &WindowManager::Hyprland, "/h")
        .unwrap();

    let mut first: Vec<(String, String)> =
        run1.iter().map(|g| (g.path.clone(), g.contents.clone())).collect();
    let mut second: Vec<(String, String)> =
        run2.iter().map(|g| (g.path.clone(), g.contents.clone())).collect();
    first.sort();
    second.sort();
    assert_eq!(first, second);

    let hash = calculate_template_hash(text);
    let entry = CacheEntry::fresh(hash.clone(), connected.clone(), "eDP-1".to_string());
    assert!(!should_regenerate(Some(&entry), &hash, &connected, "eDP-1", true));
}

#[test]
fn test_default_config() {
    let cfg = Config::default();
    assert_eq!(cfg.display.preferred_monitor, "");
    assert!(cfg.display.available_monitors.is_empty());
    assert_eq!(cfg.display.mode, "multiple");
    assert_eq!(default_mode(), "multiple");
}

#[test]
fn test_config_needs_update_modes() {
    let connected = strings(&["eDP-1", "HDMI-A-1"]);
    // Multiple mode compares the lists as sets of the same size.
    let cfg = config_with("eDP-1", &["HDMI-A-1", "eDP-1"], "multiple");
    assert!(!config_needs_update(&cfg, &connected));
    let cfg = config_with("eDP-1", &["eDP-1"], "multiple");
    assert!(config_needs_update(&cfg, &connected));
    // Single mode only asks whether the preferred monitor is connected.
    let cfg = config_with("eDP-1", &[], "single");
    assert!(!config_needs_update(&cfg, &connected));
    let cfg = config_with("DP-9", &[], "single");
    assert!(config_needs_update(&cfg, &connected));
}

#[test]
fn test_select_target_monitors() {
    let connected = strings(&["eDP-1", "HDMI-A-1"]);
    // Multiple mode targets every connected monitor.
    let cfg = config_with("eDP-1", &[], "multiple");
    assert_eq!(select_target_monitors(&cfg, &connected), connected);
    // Single mode targets the preferred monitor when connected.
    let cfg = config_with("HDMI-A-1", &[], "single");
    assert_eq!(select_target_monitors(&cfg, &connected), strings(&["HDMI-A-1"]));
    // A missing preferred monitor falls back to the first detected one.
    let cfg = config_with("DP-9", &[], "single");
    assert_eq!(select_target_monitors(&cfg, &connected), strings(&["eDP-1"]));
}

#[test]
fn test_parse_usize() {
    assert_eq!(waybar_manager::text::parse_usize("42"), Some(42));
    assert_eq!(waybar_manager::text::parse_usize("+7"), Some(7));
    assert_eq!(waybar_manager::text::parse_usize("0"), Some(0));
    assert_eq!(waybar_manager::text::parse_usize(""), None);
    assert_eq!(waybar_manager::text::parse_usize("4x"), None);
    assert_eq!(waybar_manager::text::parse_usize(" 4"), None);
    assert_eq!(waybar_manager::text::parse_usize("99999999999999999999999999"), None);
}

#[test]
fn test_parse_monitor_selection() {
    let connected = strings(&["A", "B", "C"]);
    // An empty answer selects every connected monitor.
    assert_eq!(parse_monitor_selection("  ", &connected, 1), connected);
    // Fields are 1-based; the preferred monitor opens the selection and
    // duplicates stay out.
    assert_eq!(parse_monitor_selection("3, 1", &connected, 0), strings(&["A", "C"]));
    assert_eq!(parse_monitor_selection("2,2,3", &connected, 1), strings(&["B", "C"]));
    // Invalid fields are skipped.
    assert_eq!(parse_monitor_selection("0,9,x, 3", &connected, 0), strings(&["A", "C"]));
}

#[test]
fn test_parse_jsonc_templates_crlf_lines() {
    let text = "[\r\n// TPL:SIMPLE\r\n{\"layer\": \"bottom\"}\r\n]";
    let templates = parse_jsonc_templates(text).unwrap();
    assert_eq!(templates.len(), 1);
    assert_eq!(templates[0].template_type, TemplateType::Simple);
}

#[test]
fn test_parse_jsonc_templates_more_markers_than_documents() {
    let text = "[\n// TPL:SIMPLE\n// TPL:FULL\n{\"a\": 1}\n]";
    let templates = parse_jsonc_templates(text).unwrap();
    assert_eq!(templates.len(), 1);
    assert_eq!(templates[0].template_type, TemplateType::Simple);
}

#[test]
fn test_strip_comments_edge_cases() {
    // A comment that runs to the end of the input leaves nothing behind.
    assert_eq!(strip_comments("// only a comment"), "");
    // An escaped quote does not close the literal early.
    assert_eq!(
        strip_comments("{\"a\": \"x\\\"y//z\"} // gone"),
        "{\"a\": \"x\\\"y//z\"} "
    );
    // A lone slash is ordinary text.
    assert_eq!(strip_comments("a / b"), "a / b");
    assert_eq!(strip_comments(""), "");
}

#[test]
fn test_should_regenerate_compares_monitor_sets() {
    // The monitor comparison is set-based: repeated names carry no weight.
    let entry = entry_with("h", &["eDP-1", "eDP-1"], "eDP-1");
    let monitors = strings(&["eDP-1"]);
    assert!(!should_regenerate(Some(&entry), "h", &monitors, "eDP-1", true));
}

#[test]
fn test_lists_match_empty() {
    let empty: Vec<String> = Vec::new();
    assert!(waybar_manager::monitor::lists_match(&empty, &Vec::new()));
}

#[test]
fn test_find_matches_deduplicates() {
    let configured = strings(&["eDP-1", "eDP-1"]);
    let connected = strings(&["eDP-1"]);
    let matches = waybar_manager::monitor::find_matches(&configured, &connected);
    assert_eq!(matches, strings(&["eDP-1"]));
}

#[test]
fn test_parse_jsonc_templates_custom_marker() {
    let text = "[\n// TPL:FULL\n{\"a\": 1},\n// TPL:sidebar\n{\"b\": 2}\n]";
    let templates = parse_jsonc_templates(text).unwrap();
    assert_eq!(templates.len(), 2);
    assert_eq!(templates[0].template_type, TemplateType::Full);
    assert_eq!(templates[1].template_type, TemplateType::Custom("sidebar".to_string()));
}

#[test]
fn test_all_monitors_covered() {
    let empty: Vec<(bool, bool)> = Vec::new();
    assert!(all_monitors_covered(&empty));
    assert!(all_monitors_covered(&vec![(true, false), (false, true), (true, true)]));
    assert!(!all_monitors_covered(&vec![(true, true), (false, false)]));
}
