//! What the user asks for.

use vstd::prelude::*;

use crate::text;
use crate::theme::Theme;

verus! {

/// The options of the command line.
#[derive(Debug)]
pub struct Args {
    /// Path to the repository.
    pub repo_path: String,
    /// Path of the DOT file.
    pub output: Option<String>,
    /// Do not open the browser.
    pub no_show: bool,
    /// The kinds of refs to show.
    pub filter: String,
    /// The web address of the repository.
    pub gitlab_url: Option<String>,
    /// The commit to which the graph is limited, with its descendants.
    pub from: Option<String>,
    /// Do not fetch tags first.
    pub no_fetch: bool,
    pub theme: Theme,
    /// Show only refs that the checked out commit descends from.
    pub current_branch: bool,
    /// The port of the web server; with 0 a free one.
    pub web_port: u16,
    /// The prompt for the AI tool.
    pub gia_prompt: Option<String>,
    /// The locale that the AI tool answers in.
    pub lang: String,
    /// Record a voice for the AI tool.
    pub gia_audio: bool,
    /// How many files a page shows at most; with 0 all.
    pub max_diff_files: usize,
    /// How edges are drawn.
    pub splines: String,
    /// Show the size of the graph and end.
    pub stats: bool,
}

impl Default for Args {
    /// The options where the user gives none.
    fn default() -> (r: Self)
        ensures
            r.repo_path@ == "."@,
            r.output is None,
            !r.no_show,
            r.filter@ == "brt"@,
            r.gitlab_url is None,
            r.from is None,
            !r.no_fetch,
            r.theme == Theme::Dark,
            !r.current_branch,
            r.web_port == 0,
            r.gia_prompt is None,
            r.lang@ == "de-DE"@,
            !r.gia_audio,
            r.max_diff_files == 100,
            r.splines@ == "auto"@,
            !r.stats,
    {
        Args {
            repo_path: ".".to_owned(),
            output: None,
            no_show: false,
            filter: "brt".to_owned(),
            gitlab_url: None,
            from: None,
            no_fetch: false,
            theme: Theme::Dark,
            current_branch: false,
            web_port: 0,
            gia_prompt: None,
            lang: "de-DE".to_owned(),
            gia_audio: false,
            max_diff_files: 100,
            splines: "auto".to_owned(),
            stats: false,
        }
    }
}

/// All that is needed to make the graph anew after refs have changed.
#[derive(Debug)]
pub struct RegenerateConfig {
    pub repo_path: String,
    pub dot_path: String,
    pub filter: String,
    pub gitlab_url: Option<String>,
    pub from_commit: Option<String>,
    pub theme: Theme,
    pub current_branch_only: bool,
    pub no_fetch: bool,
    pub keep_dot: bool,
    /// The address of the web server, empty before it is known.
    pub web_server_url: String,
}

impl RegenerateConfig {
    /// The address of the web server, where it is known.
    pub fn ws_url(&self) -> (r: Option<&str>)
        ensures
            text::opt_str_view(r) == (if self.web_server_url@.len() == 0 {
                None
            } else {
                Some(self.web_server_url@)
            }),
    {
        if self.web_server_url.as_str().is_empty() {
            None
        } else {
            Some(self.web_server_url.as_str())
        }
    }
}

} // verus!
