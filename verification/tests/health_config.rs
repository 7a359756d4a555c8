use plow_logic::health_config::{
    default_bot_patterns, EmailMode, HealthConfig, HealthThresholdOverride, OwnershipConfig,
};

#[test]
fn ownership_config_default_has_bot_patterns() {
    let cfg = OwnershipConfig::default();
    assert!(cfg.bot_patterns.iter().any(|p| p == r"*\[bot\]*"));
    assert!(cfg.bot_patterns.iter().any(|p| p == "dependabot*"));
    assert!(cfg.bot_patterns.iter().any(|p| p == "github-actions*"));
    assert!(
        !cfg.bot_patterns.iter().any(|p| p == "*noreply*"),
        "*noreply* must not be a default bot pattern (filters real human \
         contributors using GitHub's privacy default email)"
    );
    assert_eq!(cfg.email_mode, EmailMode::Handle);
}

#[test]
fn health_config_defaults() {
    let config = HealthConfig::default();
    assert_eq!(config.max_cyclomatic, 20);
    assert_eq!(config.max_cognitive, 15);
    assert!((f64::from_bits(config.max_crap_bits) - 30.0).abs() < f64::EPSILON);
    assert_eq!(config.crap_refactor_band, 5);
    assert!(config.coverage.is_none());
    assert!(config.coverage_root.is_none());
    assert!(config.ignore.is_empty());
    assert!(config.threshold_overrides.is_empty());
}

#[test]
fn health_config_suggest_inline_suppression_default_true() {
    let config = HealthConfig::default();
    assert!(config.suggest_inline_suppression);
}

#[test]
fn ownership_config_default_via_health() {
    let cfg = HealthConfig::default();
    assert_eq!(cfg.ownership.email_mode, EmailMode::Handle);
    assert!(!cfg.ownership.bot_patterns.is_empty());
    assert_eq!(default_bot_patterns().len(), 6);
}

fn entry(files: &[&str], cognitive: Option<u16>, crap: Option<f64>) -> HealthThresholdOverride {
    HealthThresholdOverride {
        files: files.iter().map(|f| f.to_string()).collect(),
        functions: Vec::new(),
        max_cyclomatic: None,
        max_cognitive: cognitive,
        max_crap_bits: crap.map(f64::to_bits),
        reason: None,
    }
}

#[test]
fn health_config_threshold_override_validation_requires_files() {
    let mut config = HealthConfig::default();
    config.threshold_overrides = vec![entry(&[], Some(25), None)];
    assert_eq!(
        config.threshold_override_errors(),
        vec!["health.thresholdOverrides[0].files must contain at least one pattern"]
    );
}

#[test]
fn health_config_threshold_override_validation_requires_threshold() {
    let mut config = HealthConfig::default();
    config.threshold_overrides = vec![entry(&["src/auth.ts"], None, None)];
    assert_eq!(
        config.threshold_override_errors(),
        vec!["health.thresholdOverrides[0] must set at least one of maxCyclomatic, maxCognitive, or maxCrap"]
    );
}

#[test]
fn threshold_override_errors_in_order_with_indices() {
    let mut config = HealthConfig::default();
    config.threshold_overrides = vec![
        entry(&["a.ts"], None, Some(45.0)),
        entry(&[], None, None),
        entry(&["b.ts"], Some(1), None),
    ];
    assert_eq!(
        config.threshold_override_errors(),
        vec![
            "health.thresholdOverrides[1].files must contain at least one pattern",
            "health.thresholdOverrides[1] must set at least one of maxCyclomatic, maxCognitive, or maxCrap",
        ]
    );
    assert!(config.threshold_overrides[0].has_any_threshold());
}
