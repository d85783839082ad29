//! Verified core logic of the skills manager.
use vstd::prelude::*;

pub mod text;
pub mod markdown;
pub mod translation;
pub mod error;
pub mod skills;
pub mod logs;
pub mod settings;
pub mod ai;
pub mod translation_service;
pub mod workspace;
pub mod remote;
pub mod sorting;
pub mod hosts;
pub mod cli;
pub mod updates;
pub mod agents;
pub mod scenarios;
pub mod presets;
pub mod skill_commands;
pub mod project_skills;
pub mod deployment;

verus! {
} // verus!
