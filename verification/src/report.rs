//! Reporting types shared with the surrounding tooling: structured check
//! results, persona summary rows, and the template catalogue.

use vstd::prelude::*;

verus! {

/// One finding of a persona check.
pub struct CheckIssue {
    pub code: String,
    pub check: String,
    pub message: String,
    pub path: Option<String>,
}

/// A structured check result.
pub struct CheckReport {
    pub file: String,
    pub version: String,
    pub pass: bool,
    pub errors: Vec<CheckIssue>,
    pub warnings: Vec<CheckIssue>,
}

/// Summary row for a single persona file.
pub struct PersonaRow {
    pub file: String,
    pub name: String,
    pub mbti: String,
    pub role: String,
    pub skills: usize,
}

/// The built-in persona archetypes, as name and description pairs.
pub fn list_templates() -> (r: Vec<(&'static str, &'static str)>)
    ensures
        r@.len() == 3,
        r@[0].0@ == "architect"@,
        r@[1].0@ == "worker"@,
        r@[2].0@ == "scout"@,
{
    let mut v: Vec<(&'static str, &'static str)> = Vec::new();
    v.push(("architect", "Strategic planner: high creativity and logic, low volatility"));
    v.push(("worker", "Reliable executor: high conscientiousness and reliability"));
    v.push(("scout", "Exploratory researcher: high openness and adaptability"));
    v
}

} // verus!
