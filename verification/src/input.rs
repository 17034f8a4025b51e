//! The keyboard: what each key does in each mode.

use vstd::prelude::*;
use crate::app::App;
use crate::git::ChangeKind;
use crate::listing;
use crate::search;
use crate::search::Scope;
use crate::state;
use crate::state::{Control, Mode, State};

verus! {

#[derive(Debug, Clone, Copy, PartialEq, Eq, Structural)]
pub enum KeyCode {
    Char(char),
    Esc,
    Enter,
    Backspace,
    Tab,
    Left,
    Right,
    Up,
    Down,
    PageUp,
    PageDown,
    Home,
    End,
    /// Any key that does nothing here.
    Other,
}

#[derive(Debug, Clone, Copy, PartialEq, Eq, Structural)]
pub struct KeyEvent {
    pub code: KeyCode,
    /// Whether the Control key is held.
    pub control: bool,
}

impl KeyEvent {
    /// A key pressed on its own.
    pub fn plain(code: KeyCode) -> (r: KeyEvent)
        ensures
            r == (KeyEvent { code, control: false }),
    {
        KeyEvent { code, control: false }
    }
}

// --- the model -----------------------------------------------------------------

/// Whether a key of normal mode moves the view.
pub open spec fn moves(code: KeyCode) -> bool {
    match code {
        KeyCode::Left | KeyCode::Right | KeyCode::Down | KeyCode::Up | KeyCode::PageDown
        | KeyCode::PageUp | KeyCode::Home | KeyCode::End => true,
        KeyCode::Char(c) => c == 'j' || c == 'k' || c == ' ' || c == 'g' || c == 'G' || c == 'n'
            || c == 'N',
        _ => false,
    }
}

/// Whether a key of normal mode moves the view.
fn is_move(code: KeyCode) -> (r: bool)
    ensures
        r == moves(code),
{
    match code {
        KeyCode::Left | KeyCode::Right | KeyCode::Down | KeyCode::Up | KeyCode::PageDown
        | KeyCode::PageUp | KeyCode::Home | KeyCode::End => true,
        KeyCode::Char(c) => c == 'j' || c == 'k' || c == ' ' || c == 'g' || c == 'G' || c == 'n'
            || c == 'N',
        _ => false,
    }
}

impl State {
    /// About to quit.
    pub open spec fn quit(self) -> State {
        State { control: Control { should_quit: true, ..self.control }, ..self }
    }

    /// With the help overlay shown or not.
    pub open spec fn with_help(self, shown: bool) -> State {
        State { control: Control { show_help: shown, ..self.control }, ..self }
    }

    /// With a key handled that moves the view.
    #[verifier::opaque]
    pub open spec fn move_key(self, code: KeyCode) -> State {
        match code {
            KeyCode::Left => self.history_back(),
            KeyCode::Right => self.history_forward(),
            KeyCode::Down | KeyCode::Char('j') => self.select_next(),
            KeyCode::Up | KeyCode::Char('k') => self.select_prev(),
            KeyCode::PageDown | KeyCode::Char(' ') => self.scroll_down(self.page()),
            KeyCode::PageUp => self.scroll_up(self.page()),
            KeyCode::Home | KeyCode::Char('g') => self.scroll_home(),
            KeyCode::End | KeyCode::Char('G') => self.scroll_end(),
            KeyCode::Char('n') => if self.history is None {
                self.next_match(1)
            } else {
                self
            },
            KeyCode::Char('N') => if self.history is None {
                self.next_match(-1)
            } else {
                self
            },
            _ => self,
        }
    }

    /// With a key handled that only flips a switch.
    pub open spec fn switch_key(self, code: KeyCode) -> State {
        match code {
            KeyCode::Char('q') => self.quit(),
            KeyCode::Esc => if self.history is Some {
                self.with_history(None)
            } else {
                self.quit()
            },
            KeyCode::Char('c') => self.with_history(None).with_mode(Mode::KindFilter),
            KeyCode::Tab => self.toggle_sidebar(),
            KeyCode::Char('?') => self.with_help(true),
            _ => self,
        }
    }

    /// With a key handled that changes what is shown, and how.
    #[verifier::opaque]
    pub open spec fn command_key(self, code: KeyCode) -> State {
        match code {
            KeyCode::Char('s') => self.cycle_sort_field(),
            KeyCode::Char('r') => self.toggle_sort_dir(),
            KeyCode::Char('t') => self.cycle_theme(1),
            KeyCode::Char('T') => self.cycle_theme(-1),
            KeyCode::Char('b') => self.with_history(None).toggle_diff_mode(),
            KeyCode::Char('f') => self.toggle_follow(),
            KeyCode::Char('y') => self.copy_selection(),
            KeyCode::Char('/') => self.with_history(None).with_mode(Mode::Search).with_search(
                Seq::empty(),
            ).apply_filter(),
            _ => self.switch_key(code),
        }
    }

    /// With a key handled in normal mode.
    #[verifier::opaque]
    pub open spec fn normal_key(self, code: KeyCode) -> State {
        if moves(code) {
            self.move_key(code)
        } else {
            self.command_key(code)
        }
    }

    /// With a key handled while typing a search.
    #[verifier::opaque]
    pub open spec fn search_key(self, code: KeyCode) -> State {
        match code {
            // Cancel: clear the query and show everything again.
            KeyCode::Esc => self.with_scope(Scope::Both).with_search(
                Seq::empty(),
            ).apply_filter().with_mode(Mode::Normal),
            // Accept: keep the filter, return to normal navigation.
            KeyCode::Enter => self.with_mode(Mode::Normal),
            KeyCode::Backspace => self.with_search(
                if self.find.search.len() == 0 {
                    self.find.search
                } else {
                    self.find.search.drop_last()
                },
            ).apply_filter(),
            KeyCode::Tab => self.with_scope(
                search::next_scope(self.find.search_scope),
            ).apply_filter(),
            KeyCode::Down => self.next_match(1),
            KeyCode::Up => self.next_match(-1),
            KeyCode::Char(c) => self.with_search(self.find.search.push(c)).apply_filter(),
            _ => self,
        }
    }

    /// With a key handled while toggling change-kind filters.
    #[verifier::opaque]
    pub open spec fn kind_key(self, code: KeyCode) -> State {
        match code {
            KeyCode::Esc | KeyCode::Enter | KeyCode::Char('c') => self.with_mode(Mode::Normal),
            KeyCode::Char('a') => self.toggle_kind(ChangeKind::Added),
            KeyCode::Char('m') => self.toggle_kind(ChangeKind::Modified),
            KeyCode::Char('d') => self.toggle_kind(ChangeKind::Deleted),
            KeyCode::Char('r') => self.toggle_kind(ChangeKind::Renamed),
            KeyCode::Char('u') => self.toggle_kind(ChangeKind::Untracked),
            _ => self,
        }
    }

    /// With a key handled. Ctrl-C always quits; while help is open, any key
    /// dismisses it, and `q` quits too.
    pub open spec fn handle_key(self, key: KeyEvent) -> State {
        if key.control && key.code == KeyCode::Char('c') {
            self.quit()
        } else if self.control.show_help {
            if key.code == KeyCode::Char('q') {
                self.quit().with_help(false)
            } else {
                self.with_help(false)
            }
        } else {
            match self.find.mode {
                Mode::Normal => self.normal_key(key.code),
                Mode::Search => self.search_key(key.code),
                Mode::KindFilter => self.kind_key(key.code),
            }
        }
    }
}

// --- the application -----------------------------------------------------------

proof fn lemma_position(list: Seq<Seq<char>>, name: Seq<char>, i: int)
    requires
        0 <= i,
    ensures
        listing::position_from(list, name, i) matches Some(k) ==> i <= k < list.len(),
    decreases list.len() - i,
{
    if i < list.len() {
        lemma_position(list, name, i + 1);
    }
}

proof fn lemma_theme_step(theme: Option<Seq<char>>)
    ensures
        listing::theme_step_fits(theme, 1),
        listing::theme_step_fits(theme, -1),
{
    if let Some(t) = theme {
        lemma_position(listing::themes(), t, 0);
    }
}

impl App {
    fn handle_move_key(&mut self, code: KeyCode)
        requires
            old(self)@.wf(),
        ensures
            final(self)@ == old(self)@.move_key(code),
            final(self)@.wf(),
    {
        proof {
            reveal(State::move_key);
        }
        match code {
            KeyCode::Left => self.history_back(),
            KeyCode::Right => self.history_forward(),
            KeyCode::Down | KeyCode::Char('j') => self.select_next(),
            KeyCode::Up | KeyCode::Char('k') => self.select_prev(),
            KeyCode::PageDown | KeyCode::Char(' ') => {
                let page = self.page();
                self.scroll_down(page);
            },
            KeyCode::PageUp => {
                let page = self.page();
                self.scroll_up(page);
            },
            KeyCode::Home | KeyCode::Char('g') => self.scroll_home(),
            KeyCode::End | KeyCode::Char('G') => self.scroll_end(),
            KeyCode::Char('n') => {
                if self.history.is_none() {
                    self.next_match(1);
                }
            },
            KeyCode::Char('N') => {
                if self.history.is_none() {
                    self.next_match(-1);
                }
            },
            _ => {},
        }
    }

    fn handle_switch_key(&mut self, code: KeyCode)
        requires
            old(self)@.wf(),
        ensures
            final(self)@ == old(self)@.switch_key(code),
            final(self)@.wf(),
    {
        match code {
            KeyCode::Char('q') => self.control.should_quit = true,
            KeyCode::Esc => {
                if self.history.is_some() {
                    self.history = None;
                } else {
                    self.control.should_quit = true;
                }
            },
            KeyCode::Char('c') => {
                self.exit_history();
                self.find.mode = Mode::KindFilter;
            },
            KeyCode::Tab => self.toggle_sidebar(),
            KeyCode::Char('?') => self.control.show_help = true,
            _ => {},
        }
        proof {
            state::lemma_wf(old(self)@, self@);
        }
    }

    fn handle_command_key(&mut self, code: KeyCode)
        requires
            old(self)@.wf(),
        ensures
            final(self)@ == old(self)@.command_key(code),
            final(self)@.wf(),
    {
        proof {
            reveal(State::command_key);
        }
        match code {
            KeyCode::Char('s') => self.cycle_sort_field(),
            KeyCode::Char('r') => self.toggle_sort_dir(),
            KeyCode::Char('t') => {
                proof {
                    lemma_theme_step(self@.source.theme);
                }
                self.cycle_theme(1);
            },
            KeyCode::Char('T') => {
                proof {
                    lemma_theme_step(self@.source.theme);
                }
                self.cycle_theme(-1);
            },
            KeyCode::Char('b') => {
                self.exit_history();
                proof {
                    state::lemma_wf(old(self)@, self@);
                }
                self.toggle_diff_mode();
            },
            KeyCode::Char('f') => self.toggle_follow(),
            KeyCode::Char('y') => self.copy_selection(),
            KeyCode::Char('/') => {
                self.exit_history();
                self.find.mode = Mode::Search;
                self.find.search = String::new();
                assert(self.find.search@ =~= Seq::<char>::empty());
                self.refilter(Ghost(old(self)@));
            },
            _ => self.handle_switch_key(code),
        }
    }

    fn handle_normal_key(&mut self, code: KeyCode)
        requires
            old(self)@.wf(),
        ensures
            final(self)@ == old(self)@.normal_key(code),
            final(self)@.wf(),
    {
        proof {
            reveal(State::normal_key);
        }
        if is_move(code) {
            self.handle_move_key(code);
        } else {
            self.handle_command_key(code);
        }
    }

    /// Re-filters after an edit of what is searched for in state `was`.
    fn refilter(&mut self, Ghost(was): Ghost<State>)
        requires
            was.wf(),
            state::same_sections(was, old(self)@),
        ensures
            final(self)@ == old(self)@.apply_filter(),
            final(self)@.wf(),
    {
        proof {
            was.lemma_wf_is_steady();
            state::lemma_steady(was, self@);
        }
        self.apply_filter();
    }

    fn handle_search_key(&mut self, code: KeyCode)
        requires
            old(self)@.wf(),
        ensures
            final(self)@ == old(self)@.search_key(code),
            final(self)@.wf(),
    {
        proof {
            reveal(State::search_key);
        }
        match code {
            KeyCode::Esc => {
                self.find.search_scope = Scope::Both;
                self.find.search = String::new();
                assert(self.find.search@ =~= Seq::<char>::empty());
                self.refilter(Ghost(old(self)@));
                let ghost s = self@;
                self.find.mode = Mode::Normal;
                proof {
                    state::lemma_wf(s, self@);
                }
            },
            KeyCode::Enter => {
                self.find.mode = Mode::Normal;
                proof {
                    state::lemma_wf(old(self)@, self@);
                }
            },
            KeyCode::Backspace => {
                let _gone = self.find.search.pop();
                self.refilter(Ghost(old(self)@));
            },
            KeyCode::Tab => {
                self.find.search_scope = self.find.search_scope.cycle();
                self.refilter(Ghost(old(self)@));
            },
            KeyCode::Down => self.next_match(1),
            KeyCode::Up => self.next_match(-1),
            KeyCode::Char(c) => {
                self.find.search.push(c);
                self.refilter(Ghost(old(self)@));
            },
            _ => {},
        }
    }

    fn handle_kind_key(&mut self, code: KeyCode)
        requires
            old(self)@.wf(),
        ensures
            final(self)@ == old(self)@.kind_key(code),
            final(self)@.wf(),
    {
        proof {
            reveal(State::kind_key);
        }
        let kind = match code {
            KeyCode::Esc | KeyCode::Enter | KeyCode::Char('c') => {
                self.find.mode = Mode::Normal;
                proof {
                    state::lemma_wf(old(self)@, self@);
                }
                return;
            },
            KeyCode::Char('a') => ChangeKind::Added,
            KeyCode::Char('m') => ChangeKind::Modified,
            KeyCode::Char('d') => ChangeKind::Deleted,
            KeyCode::Char('r') => ChangeKind::Renamed,
            KeyCode::Char('u') => ChangeKind::Untracked,
            _ => {
                return;
            },
        };
        self.toggle_kind(kind);
    }

    pub fn handle_key(&mut self, key: KeyEvent)
        requires
            old(self)@.wf(),
        ensures
            final(self)@ == old(self)@.handle_key(key),
            final(self)@.wf(),
    {
        // Ctrl-C always quits.
        if key.control && key.code == KeyCode::Char('c') {
            self.control.should_quit = true;
            proof {
                state::lemma_wf(old(self)@, self@);
            }
            return;
        }
        // While help is open, any key (except quit) dismisses it.
        if self.control.show_help {
            if key.code == KeyCode::Char('q') {
                self.control.should_quit = true;
            }
            self.control.show_help = false;
            proof {
                state::lemma_wf(old(self)@, self@);
            }
            return;
        }
        match self.find.mode {
            Mode::Normal => self.handle_normal_key(key.code),
            Mode::Search => self.handle_search_key(key.code),
            Mode::KindFilter => self.handle_kind_key(key.code),
        }
    }
}

} // verus!
