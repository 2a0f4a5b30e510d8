//! What describes a rule: its metadata, its requirements and its settings.
use vstd::prelude::*;

verus! {

/// The group of rules a rule belongs to.
#[derive(Clone, Copy, Debug, PartialEq, Eq, Structural)]
pub enum Category {
    BestPractices,
    Consistency,
}

/// A PHP language version.
#[derive(Clone, Copy, Debug, PartialEq, Eq, Structural)]
pub struct PhpVersion {
    pub major: u8,
    pub minor: u8,
    pub patch: u8,
}

/// The PHP versions from `min` on, up to `max` if there is one.
#[derive(Clone, Copy, Debug, PartialEq, Eq, Structural)]
pub struct PhpVersionRange {
    pub min: Option<PhpVersion>,
    pub max: Option<PhpVersion>,
}

impl PhpVersionRange {
    /// The range of all versions from `version` on.
    pub fn from_version(version: PhpVersion) -> (r: PhpVersionRange)
        ensures
            r == (PhpVersionRange { min: Some(version), max: None }),
    {
        PhpVersionRange { min: Some(version), max: None }
    }
}

/// What the analysed code must satisfy for a rule to run.
#[derive(Clone, Copy, Debug, PartialEq, Eq, Structural)]
pub enum RuleRequirements {
    Unrestricted,
    PhpVersion(PhpVersionRange),
}

/// Name, code, documentation and requirements of a rule.
#[derive(Clone, Copy, Debug)]
pub struct RuleMeta {
    pub name: &'static str,
    pub code: &'static str,
    pub description: &'static str,
    pub good_example: &'static str,
    pub bad_example: &'static str,
    pub category: Category,
    pub requirements: RuleRequirements,
}

/// The settings a rule is built from.
#[derive(Clone, Copy, Debug)]
pub struct RuleSettings<C> {
    pub enabled: bool,
    pub config: C,
}

} // verus!
