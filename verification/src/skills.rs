//! Skills that come with the program.

use vstd::prelude::*;

verus! {

/// Whether the bundled skills are advertised to the model. They are off unless they
/// are asked for: they cost tokens on every request. Their files stay on disk.
#[derive(Debug, Clone, Copy, PartialEq, Eq, Structural)]
pub struct BundledSkillsConfig {
    pub enabled: bool,
}

impl Default for BundledSkillsConfig {
    fn default() -> (r: Self)
        ensures
            !r.enabled,
    {
        BundledSkillsConfig { enabled: false }
    }
}

/// What switches a skill on or off.
#[derive(Debug)]
pub struct SkillConfig {
    pub path: Option<String>,
    pub name: Option<String>,
    pub enabled: bool,
}

/// The configuration of skills.
#[derive(Debug)]
pub struct SkillsConfig {
    pub bundled: Option<BundledSkillsConfig>,
    /// Whether turns get the instructions on skills.
    pub include_instructions: Option<bool>,
    pub config: Vec<SkillConfig>,
}

impl Default for SkillsConfig {
    fn default() -> (r: Self)
        ensures
            r.bundled is None,
            r.include_instructions is None,
            r.config@.len() == 0,
    {
        SkillsConfig { bundled: None, include_instructions: None, config: Vec::new() }
    }
}

impl SkillsConfig {
    /// Whether the bundled skills are advertised.
    pub fn bundled_enabled(&self) -> (r: bool)
        ensures
            r == match self.bundled {
                Some(b) => b.enabled,
                None => false,
            },
    {
        match self.bundled {
            Some(b) => b.enabled,
            None => {
                let usual: BundledSkillsConfig = Default::default();
                usual.enabled
            },
        }
    }
}

} // verus!
