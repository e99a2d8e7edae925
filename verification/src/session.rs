//! The dashboard as an interactive session: the list of recent reading, the open prompt with
//! its completions and errors, and what each key asks the program to do next.
use vstd::prelude::*;
use crate::cli::{history_request_ok, open_request_from_history, OpenRequest};
use crate::dashboard::{
    expand_tilde_spec, first_entry_index, is_http_url, key_entries_spec, key_selected_spec, visible_ids,
    DEntry, DashboardState, PathSuggestion,
};
use crate::history::{first_index, EntryView, HistoryEntry, HistoryFile};
use crate::keys::{KeyCode, KeyEvent};
use crate::prompt::{prompt_plan_error, prompt_plan_ok, LocalPathStatus, PromptPlan};
use crate::suggest::{dir_and_prefix_spec, sugg_view, sugg_views, SuggView};
use crate::text::{owned, trim};

verus! {

/// What the dashboard asks of the loop that runs it.
#[derive(Debug)]
pub enum DashboardEffect {
    /// Draw the screen again and read the next key.
    Redraw,
    Quit,
    /// Leave the dashboard and open this request.
    Open(OpenRequest),
    /// Ask the file system about this local path, then report with `local_checked`.
    CheckLocal { path: String, refresh: bool },
    /// List this directory, then report with `receive_listing`.
    ListDirectory { dir: String, prefix: String },
    /// Store the star flag of this entry in the history.
    SaveStar { id: String, starred: bool },
    /// Store the removal of this entry in the history.
    SaveRemoval { id: String },
}

/// The dashboard session.
pub struct DashboardSession {
    pub state: DashboardState,
    /// The history as loaded, which reopening an entry reads.
    pub history: HistoryFile,
    pub prompt: String,
    pub prompt_open: bool,
    pub error: Option<String>,
    pub suggestions: Vec<PathSuggestion>,
    pub selected_suggestion: usize,
}

/// The plain-value view of a session.
pub struct SessionView {
    pub entries: Seq<DEntry>,
    pub selected: nat,
    pub history: Seq<EntryView>,
    pub prompt: Seq<char>,
    pub prompt_open: bool,
    pub error: Option<Seq<char>>,
    pub suggestions: Seq<SuggView>,
    pub selected_suggestion: nat,
}

impl DashboardSession {
    /// The view of the session.
    pub open spec fn view_of(&self) -> SessionView {
        SessionView {
            entries: self.state.entries_view(),
            selected: self.state.selected_index(),
            history: self.history@,
            prompt: self.prompt@,
            prompt_open: self.prompt_open,
            error: crate::app::opt_view(self.error),
            suggestions: sugg_views(self.suggestions@),
            selected_suggestion: self.selected_suggestion as nat,
        }
    }
}

/// Control-C, which leaves the dashboard from anywhere.
pub open spec fn is_ctrl_c(key: KeyEvent) -> bool {
    key.code == KeyCode::Char('c') && key.modifiers.control
}

/// The prompt once the selected completion is taken, when there is one.
pub open spec fn completed_prompt(v: SessionView) -> Seq<char> {
    if v.selected_suggestion < v.suggestions.len() {
        let s = v.suggestions[v.selected_suggestion as int];
        if s.is_dir && !(s.path.len() > 0 && s.path.last() == '/') {
            s.path.push('/')
        } else {
            s.path
        }
    } else {
        v.prompt
    }
}

/// Whether the selected completion is a directory.
pub open spec fn completes_directory(v: SessionView) -> bool {
    v.selected_suggestion < v.suggestions.len() && v.suggestions[v.selected_suggestion as int].is_dir
}

/// What to do for completions of the prompt `p`: nothing for a blank prompt or a web URL,
/// otherwise list the directory the (`~`-expanded) path names, to match its last part.
pub open spec fn listing_ok(p: Seq<char>, eff: DashboardEffect) -> bool {
    if trim(p).len() == 0 || is_http_url(p) {
        eff is Redraw
    } else {
        eff matches DashboardEffect::ListDirectory { dir, prefix } && exists|home: Option<Seq<char>>|
            (dir@, prefix@) == dir_and_prefix_spec(expand_tilde_spec(p, home))
    }
}

/// The session with the prompt replaced and its completions cleared for a new listing.
pub open spec fn with_prompt(v: SessionView, p: Seq<char>) -> SessionView {
    SessionView { prompt: p, suggestions: Seq::empty(), selected_suggestion: 0, ..v }
}

/// The effect that carries out the plan for the prompt `p`.
pub open spec fn planned(p: Seq<char>, eff: DashboardEffect) -> bool {
    match eff {
        DashboardEffect::Open(r) => prompt_plan_ok(p, PromptPlan::Open(r)),
        DashboardEffect::CheckLocal { path, refresh } => prompt_plan_ok(p, PromptPlan::CheckLocal { path, refresh }),
        _ => false,
    }
}

/// The prompt's answer to a key (other than Control-C).
pub open spec fn prompt_key_ok(o: SessionView, key: KeyEvent, n: SessionView, eff: DashboardEffect) -> bool {
    match key.code {
        KeyCode::Esc => n == (SessionView { prompt_open: false, prompt: Seq::empty(), suggestions: Seq::empty(), ..o })
            && eff is Redraw,
        KeyCode::Enter => if completes_directory(o) {
            n == with_prompt(o, completed_prompt(o)) && listing_ok(completed_prompt(o), eff)
        } else {
            let p = completed_prompt(o);
            match prompt_plan_error(p) {
                Some(e) => n == (SessionView { prompt: p, error: Some(e), ..o }) && eff is Redraw,
                None => n == (SessionView { prompt: p, ..o }) && planned(p, eff),
            }
        },
        KeyCode::Tab => n == with_prompt(o, completed_prompt(o)) && listing_ok(completed_prompt(o), eff),
        KeyCode::Down => n == (SessionView {
            selected_suggestion: if o.suggestions.len() > 0 {
                if o.selected_suggestion + 1 < o.suggestions.len() {
                    o.selected_suggestion + 1
                } else {
                    (o.suggestions.len() - 1) as nat
                }
            } else {
                o.selected_suggestion
            },
            ..o
        }) && eff is Redraw,
        KeyCode::Up => n == (SessionView {
            selected_suggestion: if o.selected_suggestion > 0 { (o.selected_suggestion - 1) as nat } else { 0 },
            ..o
        }) && eff is Redraw,
        KeyCode::Backspace => {
            let p = if o.prompt.len() > 0 { o.prompt.drop_last() } else { o.prompt };
            n == (SessionView { error: None, ..with_prompt(o, p) }) && listing_ok(p, eff)
        },
        KeyCode::Char(ch) => n == (SessionView { error: None, ..with_prompt(o, o.prompt.push(ch)) }) && listing_ok(
            o.prompt.push(ch),
            eff,
        ),
        _ => n == o && eff is Redraw,
    }
}

/// The selected row's entry identifier, if the selection is on a row.
pub open spec fn selected_id(v: SessionView) -> Option<Seq<char>> {
    if v.selected < visible_ids(v.entries).len() {
        Some(visible_ids(v.entries)[v.selected as int])
    } else {
        None
    }
}

/// The list's answer to a key (other than Control-C) while the prompt is closed.
pub open spec fn list_key_ok(o: SessionView, key: KeyEvent, n: SessionView, eff: DashboardEffect) -> bool {
    let after = SessionView {
        entries: key_entries_spec(o.entries, o.selected, key),
        selected: key_selected_spec(o.entries, o.selected, key),
        ..o
    };
    if key.code == KeyCode::Char('q') || key.code == KeyCode::Esc {
        n == o && eff is Quit
    } else if key.code == KeyCode::Char('o') {
        n == (SessionView {
            prompt_open: true,
            prompt: Seq::empty(),
            error: None,
            suggestions: Seq::empty(),
            selected_suggestion: 0,
            ..o
        }) && eff is Redraw
    } else if key.code == KeyCode::Enter {
        n == o && match selected_id(o) {
            Some(id) => match first_index(o.history, id) {
                Some(i) => eff matches DashboardEffect::Open(r) && history_request_ok(o.history[i], r),
                None => eff is Redraw,
            },
            None => eff is Redraw,
        }
    } else if key.code == KeyCode::Char('s') {
        n == after && match selected_id(o) {
            Some(id) => match first_entry_index(after.entries, id) {
                Some(j) => eff matches DashboardEffect::SaveStar { id: i2, starred } && i2@ == id && starred
                    == after.entries[j].starred,
                None => eff is Redraw,
            },
            None => eff is Redraw,
        }
    } else if key.code == KeyCode::Char('r') {
        n == after && match selected_id(o) {
            Some(id) => eff matches DashboardEffect::SaveRemoval { id: i2 } && i2@ == id,
            None => eff is Redraw,
        }
    } else {
        n == after && eff is Redraw
    }
}

impl DashboardSession {
    /// A session over the loaded history, with the prompt closed.
    pub fn new(history: Vec<HistoryEntry>) -> (res: Self)
        ensures
            res.view_of().history == crate::history::entry_views(history@),
            res.view_of().entries == Seq::new(
                history@.len(),
                |i: int| crate::cli::dashboard_entry_view(history@[i]@),
            ),
            res.view_of().selected == 0,
            res.view_of().prompt == Seq::<char>::empty(),
            !res.view_of().prompt_open,
            res.view_of().error is None,
            res.view_of().suggestions == Seq::<SuggView>::empty(),
            res.view_of().selected_suggestion == 0,
    {
        let mut entries: Vec<crate::dashboard::DashboardEntry> = Vec::new();
        let mut i: usize = 0;
        while i < history.len()
            invariant
                i <= history@.len(),
                crate::dashboard::dentry_views(entries@) == Seq::new(
                    i as nat,
                    |j: int| crate::cli::dashboard_entry_view(history@[j]@),
                ),
            decreases history@.len() - i,
        {
            let e = crate::cli::dashboard_entry_from_history(&history[i]);
            let ghost before = crate::dashboard::dentry_views(entries@);
            entries.push(e);
            assert(crate::dashboard::dentry_views(entries@) =~= before.push(e@));
            assert(crate::dashboard::dentry_views(entries@) =~= Seq::new(
                (i + 1) as nat,
                |j: int| crate::cli::dashboard_entry_view(history@[j]@),
            ));
            i = i + 1;
        }
        let res = DashboardSession {
            state: DashboardState::from_history(entries),
            history: HistoryFile { entries: history },
            prompt: String::new(),
            prompt_open: false,
            error: None,
            suggestions: Vec::new(),
            selected_suggestion: 0,
        };
        assert(res.view_of().suggestions =~= Seq::<SuggView>::empty());
        res
    }

    /// Clears the completions and asks for a listing for the prompt, if it wants one.
    fn request_listing(&mut self) -> (eff: DashboardEffect)
        ensures
            final(self).view_of() == with_prompt(old(self).view_of(), old(self).prompt@),
            listing_ok(old(self).prompt@, eff),
    {
        self.suggestions = Vec::new();
        self.selected_suggestion = 0;
        assert(self.view_of().suggestions =~= Seq::<SuggView>::empty());
        if !crate::suggest::wants_suggestions(self.prompt.as_str()) {
            return DashboardEffect::Redraw;
        }
        let expanded = crate::dashboard::expand_tilde(self.prompt.as_str());
        let (dir, prefix) = crate::suggest::suggestion_dir_and_prefix(expanded.as_str());
        DashboardEffect::ListDirectory { dir, prefix }
    }

    /// Takes the selected completion into the prompt; says whether it was a directory.
    fn take_completion(&mut self) -> (res: bool)
        ensures
            final(self).view_of() == (SessionView { prompt: completed_prompt(old(self).view_of()), ..old(self).view_of() }),
            res == completes_directory(old(self).view_of()),
    {
        let r = crate::prompt::complete_selected_suggestion(
            &mut self.prompt,
            self.suggestions.as_slice(),
            self.selected_suggestion,
        );
        proof {
            if (self.selected_suggestion as int) < self.suggestions@.len() {
                assert(sugg_views(self.suggestions@)[self.selected_suggestion as int] == sugg_view(
                    self.suggestions@[self.selected_suggestion as int],
                ));
            }
        }
        r
    }

    /// The prompt's answer to a key.
    fn prompt_key(&mut self, key: KeyEvent) -> (eff: DashboardEffect)
        requires
            old(self).prompt_open,
        ensures
            prompt_key_ok(old(self).view_of(), key, final(self).view_of(), eff),
    {
        let ghost o = self.view_of();
        match key.code {
            KeyCode::Esc => {
                self.prompt_open = false;
                self.prompt = String::new();
                self.suggestions = Vec::new();
                assert(self.view_of().suggestions =~= Seq::<SuggView>::empty());
                DashboardEffect::Redraw
            },
            KeyCode::Enter => {
                if self.take_completion() {
                    self.request_listing()
                } else {
                    match crate::prompt::prompt_plan(self.prompt.as_str()) {
                        Ok(PromptPlan::Open(r)) => DashboardEffect::Open(r),
                        Ok(PromptPlan::CheckLocal { path, refresh }) => DashboardEffect::CheckLocal { path, refresh },
                        Err(e) => {
                            self.error = Some(e);
                            DashboardEffect::Redraw
                        },
                    }
                }
            },
            KeyCode::Tab => {
                self.take_completion();
                self.request_listing()
            },
            KeyCode::Down => {
                if self.suggestions.len() > 0 {
                    self.selected_suggestion = if self.selected_suggestion < self.suggestions.len() - 1 {
                        self.selected_suggestion + 1
                    } else {
                        self.suggestions.len() - 1
                    };
                }
                DashboardEffect::Redraw
            },
            KeyCode::Up => {
                self.selected_suggestion = self.selected_suggestion.saturating_sub(1);
                DashboardEffect::Redraw
            },
            KeyCode::Backspace => {
                let v = crate::text::chars_of(self.prompt.as_str());
                if v.len() > 0 {
                    self.prompt = crate::text::string_from_range(&v, 0, v.len() - 1);
                    assert(self.prompt@ =~= o.prompt.drop_last());
                }
                self.error = None;
                self.request_listing()
            },
            KeyCode::Char(ch) => {
                crate::text::push_char(&mut self.prompt, ch);
                self.error = None;
                self.request_listing()
            },
            _ => DashboardEffect::Redraw,
        }
    }

    /// The selected row's entry identifier.
    fn selected_id(&self) -> (res: Option<String>)
        ensures
            match selected_id(self.view_of()) {
                Some(id) => res matches Some(r) && r@ == id,
                None => res is None,
            },
    {
        match self.state.selected_entry_id() {
            Some(id) => Some(owned(id)),
            None => None,
        }
    }

    /// The list's answer to a key.
    fn list_key(&mut self, key: KeyEvent) -> (eff: DashboardEffect)
        requires
            !old(self).prompt_open,
        ensures
            list_key_ok(old(self).view_of(), key, final(self).view_of(), eff),
    {
        if key.code == KeyCode::Char('q') || key.code == KeyCode::Esc {
            return DashboardEffect::Quit;
        }
        if key.code == KeyCode::Char('o') {
            self.prompt_open = true;
            self.prompt = String::new();
            self.error = None;
            self.suggestions = Vec::new();
            self.selected_suggestion = 0;
            assert(self.view_of().suggestions =~= Seq::<SuggView>::empty());
            return DashboardEffect::Redraw;
        }
        if key.code == KeyCode::Enter {
            let id = match self.selected_id() {
                Some(id) => id,
                None => {
                    return DashboardEffect::Redraw;
                },
            };
            return match self.history.entry(id.as_str()) {
                Some(e) => match open_request_from_history(e) {
                    Some(r) => DashboardEffect::Open(r),
                    None => DashboardEffect::Redraw,
                },
                None => DashboardEffect::Redraw,
            };
        }
        let selected = self.selected_id();
        self.state.handle_key(key);
        if key.code == KeyCode::Char('s') {
            if let Some(id) = selected {
                if let Some(e) = self.state.entry(id.as_str()) {
                    let starred = e.starred;
                    return DashboardEffect::SaveStar { id, starred };
                }
            }
            return DashboardEffect::Redraw;
        }
        if key.code == KeyCode::Char('r') {
            if let Some(id) = selected {
                return DashboardEffect::SaveRemoval { id };
            }
            return DashboardEffect::Redraw;
        }
        DashboardEffect::Redraw
    }

    /// The session's answer to a key: Control-C quits; otherwise the prompt, when open, or
    /// the list answers it.
    pub fn handle_key(&mut self, key: KeyEvent) -> (eff: DashboardEffect)
        ensures
            is_ctrl_c(key) ==> final(self).view_of() == old(self).view_of() && eff is Quit,
            !is_ctrl_c(key) && old(self).prompt_open ==> prompt_key_ok(old(self).view_of(), key, final(self).view_of(), eff),
            !is_ctrl_c(key) && !old(self).prompt_open ==> list_key_ok(old(self).view_of(), key, final(self).view_of(), eff),
    {
        if key.code == KeyCode::Char('c') && key.modifiers.control {
            return DashboardEffect::Quit;
        }
        if self.prompt_open {
            self.prompt_key(key)
        } else {
            self.list_key(key)
        }
    }

    /// Takes the listing that `ListDirectory` asked for: the matching entries become the
    /// completions; a listing error leaves none.
    pub fn receive_listing(&mut self, dir: &str, prefix: &str, status: crate::suggest::ListingStatus)
        ensures
            final(self).view_of() == (SessionView {
                suggestions: match status {
                    crate::suggest::ListingStatus::Listed(entries) => crate::suggest::offered(entries@, prefix@),
                    _ => Seq::empty(),
                },
                ..old(self).view_of()
            }),
    {
        self.suggestions = match crate::suggest::suggestions_for_listing(dir, prefix, &status) {
            Ok(s) => s,
            Err(_) => Vec::new(),
        };
        assert(self.view_of().suggestions =~= match status {
            crate::suggest::ListingStatus::Listed(entries) => crate::suggest::offered(entries@, prefix@),
            _ => Seq::empty(),
        });
    }

    /// Takes what the file system said of the local path that `CheckLocal` named: the open
    /// request, or the message, which the prompt then shows.
    pub fn local_checked(&mut self, path: String, refresh: bool, status: LocalPathStatus) -> (res: Option<OpenRequest>)
        ensures
            match crate::prompt::local_open_spec(path@, refresh, status) {
                Ok((t, r)) => res matches Some(req) && req.target@ == t && req.refresh == r && !req.interactive
                    && req.initial_position_override is None && final(self).view_of() == old(self).view_of(),
                Err(m) => res is None && final(self).view_of() == (SessionView { error: Some(m), ..old(self).view_of() }),
            },
    {
        match crate::prompt::local_open_request(path, refresh, status) {
            Ok(r) => Some(r),
            Err(e) => {
                self.error = Some(e);
                None
            },
        }
    }

    /// The dashboard screen for this session.
    pub fn render_plan(&self, width: usize, height: u16) -> (res: crate::shelf::DashboardRenderPlan)
        ensures
            (crate::shelf::vlines(res.lines@), res.prompt_cursor) == crate::shelf::render_plan_spec(
                self.state.entries_view(),
                self.state.selected_index(),
                width as nat,
                height as nat,
                if self.prompt_open { Some(self.prompt@) } else { None },
                if self.prompt_open { Some(self.suggestions@) } else { None },
                self.selected_suggestion as nat,
                crate::app::opt_view(self.error),
            ),
    {
        let prompt = if self.prompt_open {
            Some(self.prompt.as_str())
        } else {
            None
        };
        let suggestions = if self.prompt_open {
            Some(self.suggestions.as_slice())
        } else {
            None
        };
        let error = match &self.error {
            Some(e) => Some(e.as_str()),
            None => None,
        };
        crate::shelf::dashboard_render_plan(&self.state, width, height, prompt, suggestions, self.selected_suggestion, error)
    }
}

} // verus!
