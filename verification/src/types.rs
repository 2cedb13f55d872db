//! Core data types shared across the detection pipeline.

use crate::double::Double;
use vstd::prelude::*;

verus! {

/// One piece of evidence that a repository moves to Rust.
#[derive(Debug)]
pub struct Signal {
    /// e.g. "repo-search", "issue", "pull-request".
    pub kind: String,
    pub detail: String,
    pub url: String,
}

impl Clone for Signal {
    fn clone(&self) -> (r: Self)
        ensures
            r == *self,
    {
        Signal { kind: self.kind.clone(), detail: self.detail.clone(), url: self.url.clone() }
    }
}

/// Candidate repository before scoring.
#[derive(Debug)]
pub struct Candidate {
    /// "owner/name".
    pub full_name: String,
    pub html_url: String,
    pub description: Option<String>,
    pub stars: u64,
    pub forks: u64,
    /// Open issues with PRs excluded.
    pub open_issues: u64,
    pub open_prs: u64,
    /// Bytes per language, most first.
    pub languages: Vec<(String, u64)>,
    pub signals: Vec<Signal>,
}

/// Two candidates hold the same data.
pub open spec fn same_candidate(a: Candidate, b: Candidate) -> bool {
    &&& a.full_name == b.full_name
    &&& a.html_url == b.html_url
    &&& a.description == b.description
    &&& a.stars == b.stars
    &&& a.forks == b.forks
    &&& a.open_issues == b.open_issues
    &&& a.open_prs == b.open_prs
    &&& a.languages@ == b.languages@
    &&& a.signals@ == b.signals@
}

/// Nothing is known of a candidate but, at most, its name.
pub open spec fn is_new_candidate(c: Candidate, name: Seq<char>) -> bool {
    &&& c.full_name@ == name
    &&& c.html_url@.len() == 0
    &&& c.description is None
    &&& c.stars == 0
    &&& c.forks == 0
    &&& c.open_issues == 0
    &&& c.open_prs == 0
    &&& c.languages@.len() == 0
    &&& c.signals@.len() == 0
}

impl Default for Candidate {
    fn default() -> (r: Self)
        ensures
            is_new_candidate(r, Seq::empty()),
    {
        Candidate {
            full_name: String::new(),
            html_url: String::new(),
            description: None,
            stars: 0,
            forks: 0,
            open_issues: 0,
            open_prs: 0,
            languages: Vec::new(),
            signals: Vec::new(),
        }
    }
}

/// A copy of a language table.
pub fn copy_languages(languages: &Vec<(String, u64)>) -> (r: Vec<(String, u64)>)
    ensures
        r@ == languages@,
{
    let mut out: Vec<(String, u64)> = Vec::new();
    let mut i: usize = 0;
    while i < languages.len()
        invariant
            i <= languages@.len(),
            out@ == languages@.take(i as int),
        decreases languages@.len() - i,
    {
        out.push((languages[i].0.clone(), languages[i].1));
        i += 1;
    }
    out
}

impl Clone for Candidate {
    fn clone(&self) -> (r: Self)
        ensures
            same_candidate(r, *self),
    {
        Candidate {
            full_name: self.full_name.clone(),
            html_url: self.html_url.clone(),
            description: self.description.clone(),
            stars: self.stars,
            forks: self.forks,
            open_issues: self.open_issues,
            open_prs: self.open_prs,
            languages: copy_languages(&self.languages),
            signals: self.signals.clone(),
        }
    }
}

/// A pull request that carried out a rewrite.
#[derive(Debug)]
pub struct RewritePr {
    pub title: String,
    pub url: String,
}

impl Clone for RewritePr {
    fn clone(&self) -> (r: Self)
        ensures
            r == *self,
    {
        RewritePr { title: self.title.clone(), url: self.url.clone() }
    }
}

/// Scored project ready for storage and rendering.
#[derive(Debug)]
pub struct Project {
    pub name: String,
    pub repo_url: String,
    pub description: Option<String>,
    pub stars: u64,
    pub forks: u64,
    pub open_issues: u64,
    pub open_prs: u64,
    pub original_language: Option<String>,
    pub rust_percentage: Double,
    pub confidence: Double,
    pub signals: Vec<Signal>,
    pub rewrite_prs: Vec<RewritePr>,
    /// Primary rewrite PR (first of `rewrite_prs`) for older consumers.
    pub rewrite_pr: Option<RewritePr>,
    pub unsafe_percentage: Option<Double>,
    /// `"rewrite"`, `"replacement"`, or `"neither"`.
    pub project_kind: String,
    pub named_origin: Option<String>,
    pub lines_added: Option<u64>,
    pub lines_removed: Option<u64>,
    pub rewrite_velocity: Option<Double>,
    pub ai_assist_score: Option<Double>,
    pub ai_agents: Vec<String>,
    pub rewrite_duration_days: Option<u32>,
    pub commit_count: Option<u32>,
    pub history_from_language: Option<String>,
    pub history_rust_before: Option<Double>,
    pub history_rust_after: Option<Double>,
    pub transition_magnitude: Option<Double>,
    pub total_commits_analyzed: Option<u32>,
    pub history_status: Option<String>,
    pub history_error: Option<String>,
    pub history_attempted_at: Option<String>,
    pub history_attempts: Option<u32>,
    pub source_url: String,
    pub first_detected: String,
    pub last_seen: String,
    pub exemplar: bool,
}

/// Two projects hold the same data.
pub open spec fn same_project(a: Project, b: Project) -> bool {
    &&& a.name == b.name
    &&& a.repo_url == b.repo_url
    &&& a.description == b.description
    &&& a.stars == b.stars
    &&& a.forks == b.forks
    &&& a.open_issues == b.open_issues
    &&& a.open_prs == b.open_prs
    &&& a.original_language == b.original_language
    &&& a.rust_percentage == b.rust_percentage
    &&& a.confidence == b.confidence
    &&& a.signals@ == b.signals@
    &&& a.rewrite_prs@ == b.rewrite_prs@
    &&& a.rewrite_pr == b.rewrite_pr
    &&& a.unsafe_percentage == b.unsafe_percentage
    &&& a.project_kind == b.project_kind
    &&& a.named_origin == b.named_origin
    &&& a.lines_added == b.lines_added
    &&& a.lines_removed == b.lines_removed
    &&& a.rewrite_velocity == b.rewrite_velocity
    &&& a.ai_assist_score == b.ai_assist_score
    &&& a.ai_agents@ == b.ai_agents@
    &&& a.rewrite_duration_days == b.rewrite_duration_days
    &&& a.commit_count == b.commit_count
    &&& a.history_from_language == b.history_from_language
    &&& a.history_rust_before == b.history_rust_before
    &&& a.history_rust_after == b.history_rust_after
    &&& a.transition_magnitude == b.transition_magnitude
    &&& a.total_commits_analyzed == b.total_commits_analyzed
    &&& a.history_status == b.history_status
    &&& a.history_error == b.history_error
    &&& a.history_attempted_at == b.history_attempted_at
    &&& a.history_attempts == b.history_attempts
    &&& a.source_url == b.source_url
    &&& a.first_detected == b.first_detected
    &&& a.last_seen == b.last_seen
    &&& a.exemplar == b.exemplar
}

impl Clone for Project {
    fn clone(&self) -> (r: Self)
        ensures
            same_project(r, *self),
    {
        Project {
            name: self.name.clone(),
            repo_url: self.repo_url.clone(),
            description: self.description.clone(),
            stars: self.stars,
            forks: self.forks,
            open_issues: self.open_issues,
            open_prs: self.open_prs,
            original_language: self.original_language.clone(),
            rust_percentage: self.rust_percentage,
            confidence: self.confidence,
            signals: self.signals.clone(),
            rewrite_prs: self.rewrite_prs.clone(),
            rewrite_pr: self.rewrite_pr.clone(),
            unsafe_percentage: self.unsafe_percentage,
            project_kind: self.project_kind.clone(),
            named_origin: self.named_origin.clone(),
            lines_added: self.lines_added,
            lines_removed: self.lines_removed,
            rewrite_velocity: self.rewrite_velocity,
            ai_assist_score: self.ai_assist_score,
            ai_agents: self.ai_agents.clone(),
            rewrite_duration_days: self.rewrite_duration_days,
            commit_count: self.commit_count,
            history_from_language: self.history_from_language.clone(),
            history_rust_before: self.history_rust_before,
            history_rust_after: self.history_rust_after,
            transition_magnitude: self.transition_magnitude,
            total_commits_analyzed: self.total_commits_analyzed,
            history_status: self.history_status.clone(),
            history_error: self.history_error.clone(),
            history_attempted_at: self.history_attempted_at.clone(),
            history_attempts: self.history_attempts,
            source_url: self.source_url.clone(),
            first_detected: self.first_detected.clone(),
            last_seen: self.last_seen.clone(),
            exemplar: self.exemplar,
        }
    }
}

impl Project {
    /// The rewrite pull requests: `rewrite_prs`, or else the single
    /// `rewrite_pr`.
    pub open spec fn rewrite_pr_list(self) -> Seq<RewritePr> {
        if self.rewrite_prs@.len() > 0 {
            self.rewrite_prs@
        } else {
            match self.rewrite_pr {
                Some(pr) => seq![pr],
                None => Seq::empty(),
            }
        }
    }

    /// Prefer `rewrite_prs`; fall back to legacy single `rewrite_pr`.
    pub fn effective_rewrite_prs(&self) -> (r: Vec<RewritePr>)
        ensures
            r@ == self.rewrite_pr_list(),
    {
        if self.rewrite_prs.is_empty() {
            let mut out: Vec<RewritePr> = Vec::new();
            if let Some(pr) = &self.rewrite_pr {
                out.push(pr.clone());
            }
            out
        } else {
            self.rewrite_prs.clone()
        }
    }
}

/// The kind of a stored project that names none.
pub fn default_project_kind() -> (r: String)
    ensures
        r@ == "replacement"@,
{
    "replacement".to_owned()
}

} // verus!
