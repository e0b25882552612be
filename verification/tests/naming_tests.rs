use aether_convert::naming::{self, NamingEngine};
use aether_convert::types::{NamingBlock, NamingConfig};

#[test]
fn sanitize_lowercases_and_replaces_spaces() {
    assert_eq!(naming::sanitize_filename("My Clip"), "my_clip");
}

#[test]
fn sanitize_strips_disallowed_characters() {
    assert_eq!(naming::sanitize_filename("a?b*c|d"), "abcd");
    assert_eq!(naming::sanitize_filename("Film (2024) #1!"), "film_2024_1");
}

#[test]
fn sanitize_collapses_and_trims_underscores() {
    assert_eq!(naming::sanitize_filename("__a___b__"), "a_b");
    assert_eq!(naming::sanitize_filename("  spaced  out  "), "spaced_out");
}

#[test]
fn sanitize_keeps_hyphens_and_digits() {
    assert_eq!(naming::sanitize_filename("take-2 v3"), "take-2_v3");
}

#[test]
fn sanitize_empty_result_falls_back_to_file() {
    assert_eq!(naming::sanitize_filename(""), "file");
    assert_eq!(naming::sanitize_filename("???"), "file");
    assert_eq!(naming::sanitize_filename("___"), "file");
}

#[test]
fn pipeline_original_only_keeps_stem() {
    let config = NamingConfig { blocks: vec![NamingBlock::Original], sanitize_enabled: false };
    let mut engine = NamingEngine::new();
    assert_eq!(naming::apply_naming_pipeline("holiday", &config, &mut engine), "holiday");
}

#[test]
fn pipeline_joins_blocks_with_underscore() {
    let config = NamingConfig {
        blocks: vec![
            NamingBlock::Prefix { value: String::from("vid") },
            NamingBlock::Original,
        ],
        sanitize_enabled: false,
    };
    let mut engine = NamingEngine::new();
    assert_eq!(naming::apply_naming_pipeline("clip", &config, &mut engine), "vid_clip");
}

#[test]
fn pipeline_skips_empty_prefix() {
    let config = NamingConfig {
        blocks: vec![
            NamingBlock::Prefix { value: String::new() },
            NamingBlock::Original,
        ],
        sanitize_enabled: false,
    };
    let mut engine = NamingEngine::new();
    assert_eq!(naming::apply_naming_pipeline("clip", &config, &mut engine), "clip");
}

#[test]
fn pipeline_empty_result_falls_back_to_unnamed() {
    let config = NamingConfig {
        blocks: vec![NamingBlock::Prefix { value: String::new() }],
        sanitize_enabled: false,
    };
    let mut engine = NamingEngine::new();
    assert_eq!(naming::apply_naming_pipeline("stem", &config, &mut engine), "unnamed");
}

#[test]
fn pipeline_random_block_has_clamped_length_and_charset() {
    for (requested, expected) in [(0u8, 4usize), (4, 4), (16, 16), (32, 32), (99, 32)] {
        let config = NamingConfig {
            blocks: vec![NamingBlock::Random { length: requested }],
            sanitize_enabled: false,
        };
        let mut engine = NamingEngine::new();
        let out = naming::apply_naming_pipeline("stem", &config, &mut engine);
        assert_eq!(out.chars().count(), expected);
        assert!(out.chars().all(|c| c.is_ascii_lowercase() || c.is_ascii_digit()));
    }
}

#[test]
fn prefix_and_date_with_sanitize_stay_in_charset() {
    let config = NamingConfig {
        blocks: vec![
            NamingBlock::Prefix { value: String::from("vid") },
            NamingBlock::Date,
        ],
        sanitize_enabled: true,
    };
    let mut engine = NamingEngine::new();
    let out = naming::apply_naming_pipeline("My Clip", &config, &mut engine);
    assert!(!out.is_empty());
    assert!(!out.contains(' '));
    assert!(out.chars().all(|c| c.is_ascii_lowercase()
        || c.is_ascii_digit()
        || c == '_'
        || c == '-'));
    assert!(!out.starts_with('_'));
    assert!(!out.ends_with('_'));
}

#[test]
fn rapid_successive_date_outputs_differ() {
    let config = NamingConfig {
        blocks: vec![
            NamingBlock::Prefix { value: String::from("vid") },
            NamingBlock::Date,
        ],
        sanitize_enabled: true,
    };
    let mut engine = NamingEngine::new();
    let a = naming::apply_naming_pipeline("My Clip", &config, &mut engine);
    let b = naming::apply_naming_pipeline("My Clip", &config, &mut engine);
    assert_ne!(a, b, "two calls within the same instant must stay distinguishable");
}

#[test]
fn disambiguate_appends_counter_on_repeat() {
    let mut engine = NamingEngine::new();
    let first = engine.disambiguate(String::from("20240101"));
    assert_eq!(first, "20240101");
    let second = engine.disambiguate(String::from("20240101"));
    assert_eq!(second, "20240101_2");
    let third = engine.disambiguate(String::from("20240101"));
    assert_eq!(third, "20240101_3");
    let fresh = engine.disambiguate(String::from("20240102"));
    assert_eq!(fresh, "20240102");
}

#[test]
fn default_naming_config_keeps_original() {
    let config = NamingConfig::default();
    assert_eq!(config.blocks.len(), 1);
    assert!(matches!(config.blocks[0], NamingBlock::Original));
    assert!(!config.sanitize_enabled);
}
