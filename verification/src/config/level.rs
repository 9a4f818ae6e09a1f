//! Rule settings written either as a switch or as a full configuration.
use super::rules::{HasLevel, Level};
use vstd::prelude::*;

verus! {

/// A rule written as `true`/`false` or as its configuration table.
#[derive(Debug, Clone)]
pub enum RuleSetting<T> {
    Enabled(bool),
    Config(T),
}

/// The configuration a setting selects: `true` keeps the default, `false`
/// turns the default off, and a table replaces it.
pub open spec fn resolved<T: HasLevel>(setting: RuleSetting<T>, default: T) -> T {
    match setting {
        RuleSetting::Enabled(true) => default,
        RuleSetting::Enabled(false) => default.leveled(Level::Off),
        RuleSetting::Config(value) => value,
    }
}

/// An optional setting: absent keeps the default.
pub open spec fn resolved_opt<T: HasLevel>(setting: Option<RuleSetting<T>>, default: T) -> T {
    match setting {
        Some(s) => resolved(s, default),
        None => default,
    }
}

/// Applies a rule setting to the rule's default configuration.
pub fn resolve<T: HasLevel>(setting: RuleSetting<T>, default: T) -> (r: T)
    ensures
        r == resolved(setting, default),
{
    match setting {
        RuleSetting::Enabled(true) => default,
        RuleSetting::Enabled(false) => {
            let mut config = default;
            config.set_level(Level::Off);
            config
        },
        RuleSetting::Config(value) => value,
    }
}

/// Applies an optional rule setting to the rule's default configuration.
pub fn resolve_opt<T: HasLevel>(setting: Option<RuleSetting<T>>, default: T) -> (r: T)
    ensures
        r == resolved_opt(setting, default),
{
    match setting {
        Some(s) => resolve(s, default),
        None => default,
    }
}

} // verus!
