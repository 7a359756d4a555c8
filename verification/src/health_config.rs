//! Health-check configuration: complexity thresholds, per-file overrides and
//! ownership settings, with their defaults and the validation of overrides.
//!
//! Thresholds that the configuration format writes as decimals (`maxCrap`)
//! are held as the IEEE-754 bit patterns of their `f64` values.
use vstd::prelude::*;

use crate::text::{chars_of, decimal, decimal_chars, push_chars, push_str, string_from_chars, string_views, strings_of, views};

verus! {

pub const DEFAULT_MAX_CYCLOMATIC: u16 = 20;

pub const DEFAULT_MAX_COGNITIVE: u16 = 15;

/// Bits of the `f64` 30.0, the default CRAP-score ceiling.
pub const DEFAULT_MAX_CRAP_BITS: u64 = 0x403E_0000_0000_0000;

pub const DEFAULT_CRAP_REFACTOR_BAND: u16 = 5;

pub fn default_max_cyclomatic() -> (n: u16)
    ensures
        n == DEFAULT_MAX_CYCLOMATIC,
{
    DEFAULT_MAX_CYCLOMATIC
}

pub fn default_max_cognitive() -> (n: u16)
    ensures
        n == DEFAULT_MAX_COGNITIVE,
{
    DEFAULT_MAX_COGNITIVE
}

/// The default CRAP-score ceiling, 30.0, as `f64` bits.
pub fn default_max_crap_bits() -> (b: u64)
    ensures
        b == DEFAULT_MAX_CRAP_BITS,
{
    DEFAULT_MAX_CRAP_BITS
}

pub fn default_crap_refactor_band() -> (n: u16)
    ensures
        n == DEFAULT_CRAP_REFACTOR_BAND,
{
    DEFAULT_CRAP_REFACTOR_BAND
}

pub fn default_suggest_inline_suppression() -> (b: bool)
    ensures
        b,
{
    true
}

/// Author patterns that mark bots, excluded from ownership by default.
pub open spec fn default_bot_pattern_views() -> Seq<Seq<char>> {
    seq![
        "*\\[bot\\]*"@,
        "dependabot*"@,
        "renovate*"@,
        "github-actions*"@,
        "svc-*"@,
        "*-service-account*"@,
    ]
}

pub fn default_bot_patterns() -> (v: Vec<String>)
    ensures
        string_views(v@) == default_bot_pattern_views(),
{
    let items: [&str; 6] = [
        "*\\[bot\\]*",
        "dependabot*",
        "renovate*",
        "github-actions*",
        "svc-*",
        "*-service-account*",
    ];
    let v = strings_of(&items);
    assert(views(items@) =~= default_bot_pattern_views());
    v
}

/// How author emails appear in ownership output.
#[derive(Clone, Copy, Debug, PartialEq, Eq, Structural)]
pub enum EmailMode {
    Raw,
    Handle,
    Anonymized,
    Hash,
}

pub fn default_email_mode() -> (m: EmailMode)
    ensures
        m == EmailMode::Handle,
{
    EmailMode::Handle
}

/// Ownership settings.
#[derive(Clone, Debug)]
pub struct OwnershipConfig {
    pub bot_patterns: Vec<String>,
    pub email_mode: EmailMode,
}

impl Default for OwnershipConfig {
    fn default() -> (c: Self)
        ensures
            string_views(c.bot_patterns@) == default_bot_pattern_views(),
            c.email_mode == EmailMode::Handle,
    {
        OwnershipConfig { bot_patterns: default_bot_patterns(), email_mode: default_email_mode() }
    }
}

/// Thresholds that replace the global ones for matching files and functions.
#[derive(Clone, Debug)]
pub struct HealthThresholdOverride {
    pub files: Vec<String>,
    pub functions: Vec<String>,
    pub max_cyclomatic: Option<u16>,
    pub max_cognitive: Option<u16>,
    /// `f64` bits of the CRAP ceiling, when set.
    pub max_crap_bits: Option<u64>,
    pub reason: Option<String>,
}

impl HealthThresholdOverride {
    /// Whether the override sets any threshold at all.
    pub fn has_any_threshold(&self) -> (b: bool)
        ensures
            b == (self.max_cyclomatic is Some || self.max_cognitive is Some
                || self.max_crap_bits is Some),
    {
        self.max_cyclomatic.is_some() || self.max_cognitive.is_some() || self.max_crap_bits.is_some()
    }
}

/// Health-check configuration.
#[derive(Clone, Debug)]
pub struct HealthConfig {
    pub max_cyclomatic: u16,
    pub max_cognitive: u16,
    /// `f64` bits of the CRAP-score ceiling.
    pub max_crap_bits: u64,
    pub crap_refactor_band: u16,
    pub coverage: Option<String>,
    pub coverage_root: Option<String>,
    pub ignore: Vec<String>,
    pub threshold_overrides: Vec<HealthThresholdOverride>,
    pub ownership: OwnershipConfig,
    pub suggest_inline_suppression: bool,
}

impl Default for HealthConfig {
    fn default() -> (c: Self)
        ensures
            c.max_cyclomatic == DEFAULT_MAX_CYCLOMATIC,
            c.max_cognitive == DEFAULT_MAX_COGNITIVE,
            c.max_crap_bits == DEFAULT_MAX_CRAP_BITS,
            c.crap_refactor_band == DEFAULT_CRAP_REFACTOR_BAND,
            c.coverage is None,
            c.coverage_root is None,
            c.ignore@.len() == 0,
            c.threshold_overrides@.len() == 0,
            string_views(c.ownership.bot_patterns@) == default_bot_pattern_views(),
            c.ownership.email_mode == EmailMode::Handle,
            c.suggest_inline_suppression,
    {
        HealthConfig {
            max_cyclomatic: default_max_cyclomatic(),
            max_cognitive: default_max_cognitive(),
            max_crap_bits: default_max_crap_bits(),
            crap_refactor_band: default_crap_refactor_band(),
            coverage: None,
            coverage_root: None,
            ignore: Vec::new(),
            threshold_overrides: Vec::new(),
            ownership: OwnershipConfig::default(),
            suggest_inline_suppression: default_suggest_inline_suppression(),
        }
    }
}

/// The error for an override at `index` without file patterns.
pub open spec fn missing_files_error(index: nat) -> Seq<char> {
    "health.thresholdOverrides["@ + decimal(index) + "].files must contain at least one pattern"@
}

/// The error for an override at `index` that sets no threshold.
pub open spec fn missing_threshold_error(index: nat) -> Seq<char> {
    "health.thresholdOverrides["@ + decimal(index)
        + "] must set at least one of maxCyclomatic, maxCognitive, or maxCrap"@
}

/// The errors of the first `n` overrides, in order: for each, a missing-files
/// error when it has no file pattern, then a missing-threshold error when it
/// sets no threshold.
pub open spec fn override_errors(o: Seq<HealthThresholdOverride>, n: int) -> Seq<Seq<char>>
    decreases n,
{
    if n <= 0 {
        Seq::<Seq<char>>::empty()
    } else {
        let e = o[n - 1];
        override_errors(o, n - 1) + (if e.files@.len() == 0 {
            seq![missing_files_error((n - 1) as nat)]
        } else {
            Seq::<Seq<char>>::empty()
        }) + (if !(e.max_cyclomatic is Some || e.max_cognitive is Some || e.max_crap_bits is Some) {
            seq![missing_threshold_error((n - 1) as nat)]
        } else {
            Seq::<Seq<char>>::empty()
        })
    }
}

impl HealthConfig {
    /// Validation errors of the threshold overrides, in order.
    pub fn threshold_override_errors(&self) -> (errors: Vec<String>)
        ensures
            string_views(errors@) == override_errors(
                self.threshold_overrides@,
                self.threshold_overrides@.len() as int,
            ),
    {
        let ghost o = self.threshold_overrides@;
        let mut errors: Vec<String> = Vec::new();
        let mut i: usize = 0;
        while i < self.threshold_overrides.len()
            invariant
                i <= o.len(),
                o == self.threshold_overrides@,
                string_views(errors@) == override_errors(o, i as int),
            decreases o.len() - i,
        {
            let entry = &self.threshold_overrides[i];
            let ghost before = string_views(errors@);
            let idx = decimal_chars(i as u64);
            if entry.files.len() == 0 {
                let mut m = chars_of("health.thresholdOverrides[");
                push_chars(&mut m, &idx);
                push_str(&mut m, "].files must contain at least one pattern");
                errors.push(string_from_chars(&m));
            }
            let ghost mid = string_views(errors@);
            assert(mid =~= before + (if o[i as int].files@.len() == 0 {
                seq![missing_files_error(i as nat)]
            } else {
                Seq::<Seq<char>>::empty()
            }));
            if !entry.has_any_threshold() {
                let mut m = chars_of("health.thresholdOverrides[");
                push_chars(&mut m, &idx);
                push_str(
                    &mut m,
                    "] must set at least one of maxCyclomatic, maxCognitive, or maxCrap",
                );
                errors.push(string_from_chars(&m));
            }
            assert(string_views(errors@) =~= mid + (if !(o[i as int].max_cyclomatic is Some
                || o[i as int].max_cognitive is Some || o[i as int].max_crap_bits is Some) {
                seq![missing_threshold_error(i as nat)]
            } else {
                Seq::<Seq<char>>::empty()
            }));
            i = i + 1;
        }
        errors
    }
}

} // verus!
