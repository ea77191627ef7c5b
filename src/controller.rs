//! The interaction state machine: mode, query text, shown results and the
//! selected row, changed only through the transitions below. Searching and
//! launching are left to the caller, which the transitions tell what to do.
use vstd::prelude::*;

use crate::config::{opener_pairs, OpenersConfig};
use crate::dispatch::{open_command, open_command_of, web_search_url, web_search_url_of};
use crate::search::SearchResult;

verus! {

/// Most rows shown for one query.
pub const MAX_ROWS: usize = 50;

/// Which kind of entry the session searches.
#[derive(PartialEq, Eq, Structural, Clone, Copy, Debug)]
pub enum Mode {
    Apps,
    Files,
}

/// What the caller is to do for the shown list after a transition.
pub enum Request {
    /// Show nothing.
    Clear,
    /// Run the search of `mode` for `query` and hand the results to
    /// `Session::show_results`.
    Search { mode: Mode, query: String },
}

/// What activating the selection launches; the session ends after it.
pub enum Action {
    /// Run the command of the application descriptor at this path.
    LaunchDescriptor(String),
    /// Run this command line through a shell.
    RunShell(String),
    /// Open this address with the desktop's generic opener.
    OpenUrl(String),
}

/// The state of one search session.
pub struct Session {
    pub mode: Mode,
    /// The text typed so far.
    pub query: String,
    /// The rows shown, at most `MAX_ROWS`.
    pub results: Vec<SearchResult>,
    /// The selected row.
    pub selected: usize,
}

impl Session {
    /// The selection stays within the shown rows: it is 0 when none are shown.
    pub open spec fn wf(&self) -> bool {
        &&& self.results@.len() <= MAX_ROWS
        &&& (self.selected == 0 || self.selected < self.results@.len())
    }

    /// A new session: applications, no text, nothing shown.
    pub fn new() -> (r: Session)
        ensures
            r.wf(),
            r.mode == Mode::Apps,
            r.query@.len() == 0,
            r.results@.len() == 0,
            r.selected == 0,
    {
        Session { mode: Mode::Apps, query: String::new(), results: Vec::new(), selected: 0 }
    }

    /// The rows to show for the current mode and text: nothing for empty
    /// text, which is never searched, and otherwise the mode's search for it.
    pub fn refresh_request(&self) -> (r: Request)
        ensures
            self.query@.len() == 0 ==> r is Clear,
            self.query@.len() > 0 ==> r is Search && r->mode == self.mode && r->query@
                == self.query@,
    {
        if self.query.as_str().is_empty() {
            Request::Clear
        } else {
            Request::Search { mode: self.mode, query: self.query.clone() }
        }
    }

    /// The text changed: the shown rows go, the selection returns to the first
    /// row, and the current mode's search runs for the new text unless it is empty.
    pub fn text_changed(&mut self, text: &str) -> (r: Request)
        ensures
            final(self).wf(),
            final(self).mode == old(self).mode,
            final(self).query@ == text@,
            final(self).results@.len() == 0,
            final(self).selected == 0,
            text@.len() == 0 ==> r is Clear,
            text@.len() > 0 ==> r is Search && r->mode == old(self).mode && r->query@ == text@,
    {
        self.query = String::from_str(text);
        self.results = Vec::new();
        self.selected = 0;
        if text.is_empty() {
            Request::Clear
        } else {
            Request::Search { mode: self.mode, query: String::from_str(text) }
        }
    }

    /// The mode flips, the shown rows go, and the selection returns to the
    /// first row. The typed text stays, and the new mode's search runs for it
    /// unless it is empty.
    pub fn toggle_mode(&mut self) -> (r: Request)
        ensures
            final(self).wf(),
            final(self).mode != old(self).mode,
            final(self).query@ == old(self).query@,
            final(self).results@.len() == 0,
            final(self).selected == 0,
            old(self).query@.len() == 0 ==> r is Clear,
            old(self).query@.len() > 0 ==> r is Search && r->mode == final(self).mode
                && r->query@ == old(self).query@,
    {
        self.mode = match self.mode {
            Mode::Apps => Mode::Files,
            Mode::Files => Mode::Apps,
        };
        self.results = Vec::new();
        self.selected = 0;
        self.refresh_request()
    }

    /// Shows the first `MAX_ROWS` of `results` and selects the first row.
    pub fn show_results(&mut self, results: Vec<SearchResult>)
        ensures
            final(self).wf(),
            final(self).mode == old(self).mode,
            final(self).query@ == old(self).query@,
            final(self).results@ == results@.take(
                if results@.len() <= MAX_ROWS { results@.len() as int } else { MAX_ROWS as int },
            ),
            final(self).selected == 0,
    {
        let mut results = results;
        let ghost all = results@;
        if results.len() > MAX_ROWS {
            results.truncate(MAX_ROWS);
        }
        assert(results@ =~= all.take(
            if all.len() <= MAX_ROWS { all.len() as int } else { MAX_ROWS as int },
        ));
        self.results = results;
        self.selected = 0;
    }

    /// Whether the shown list is the "search for the typed text" placeholder:
    /// no rows, and some text typed.
    pub fn shows_placeholder(&self) -> (r: bool)
        ensures
            r == (self.results@.len() == 0 && self.query@.len() > 0),
    {
        self.results.len() == 0 && !self.query.as_str().is_empty()
    }

    /// Moves the selection one row up, stopping at the first row.
    pub fn navigate_up(&mut self)
        requires
            old(self).wf(),
        ensures
            final(self).wf(),
            final(self).mode == old(self).mode,
            final(self).query@ == old(self).query@,
            final(self).results@ == old(self).results@,
            final(self).selected == if old(self).selected > 0 {
                old(self).selected - 1
            } else {
                0
            },
    {
        if self.selected > 0 {
            self.selected = self.selected - 1;
        }
    }

    /// Moves the selection one row down, stopping at the last row; nothing
    /// moves when no row is shown.
    pub fn navigate_down(&mut self)
        requires
            old(self).wf(),
        ensures
            final(self).wf(),
            final(self).mode == old(self).mode,
            final(self).query@ == old(self).query@,
            final(self).results@ == old(self).results@,
            final(self).selected == if old(self).selected + 1 < old(self).results@.len() {
                old(self).selected + 1
            } else {
                old(self).selected as int
            },
    {
        if self.selected + 1 < self.results.len() {
            self.selected = self.selected + 1;
        }
    }

    /// Activation: nothing happens without text; otherwise the current
    /// mode's search runs again for the typed text, and its results go to
    /// `Session::dispatch`.
    pub fn activate(&self) -> (r: Option<Request>)
        ensures
            self.query@.len() == 0 ==> r is None,
            self.query@.len() > 0 ==> r is Some && r->0 is Search && r->0->mode == self.mode
                && r->0->query@ == self.query@,
    {
        if self.query.as_str().is_empty() {
            None
        } else {
            Some(Request::Search { mode: self.mode, query: self.query.clone() })
        }
    }

    /// What activation launches, given the results recomputed for it: the
    /// entry at the selected row, by mode, or else a web search for the text.
    pub fn dispatch(&self, fresh: &Vec<SearchResult>, config: &OpenersConfig) -> (r: Action)
        ensures
            match self.mode {
                Mode::Apps => if (self.selected as int) < fresh@.len() {
                    r is LaunchDescriptor && r->LaunchDescriptor_0@
                        == fresh@[self.selected as int].path@
                } else {
                    r is OpenUrl && r->OpenUrl_0@ == web_search_url_of(self.query@)
                },
                Mode::Files => if (self.selected as int) < fresh@.len() {
                    r is RunShell && r->RunShell_0@ == open_command_of(
                        opener_pairs(config.openers@),
                        fresh@[self.selected as int].path@,
                    )
                } else {
                    r is OpenUrl && r->OpenUrl_0@ == web_search_url_of(self.query@)
                },
            },
    {
        if self.selected < fresh.len() {
            let path = &fresh[self.selected].path;
            match self.mode {
                Mode::Apps => Action::LaunchDescriptor(path.clone()),
                Mode::Files => Action::RunShell(open_command(config, path.as_str())),
            }
        } else {
            Action::OpenUrl(web_search_url(self.query.as_str()))
        }
    }
}

} // verus!
