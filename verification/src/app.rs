//! The state of the interactive program and its reactions: to the keys
//! that the user presses, and to what the scan and the trim report.

use crate::order::{lemma_sorted_is_permutation, sort_entries, sorted, SortMode};
use crate::discovery::ScanProgress;
use crate::scanner::{entries_of, AppInfo, Entry};
use crate::selection::{
    home, home_position, is_place_of, lemma_home_in_list, lemma_moved, lemma_targets, move_cursor,
    moved, place_in_view, positions, selected_targets, targets, toggle_all, toggle_at, toggled,
    toggled_all, visible_indices, visible_positions, Direction,
};
use crate::trim::{Job, TrimJob, TrimProgress};
use vstd::prelude::*;

verus! {

/// While a scan or a trim runs, the program waits for a key no longer than
/// this many milliseconds before it looks for reports again.
pub const POLL_MILLIS: u64 = 50;

/// The phases of the program.
#[derive(Debug, Clone, Copy, PartialEq, Eq, Structural)]
pub enum AppState {
    /// The first scan is running.
    Loading,
    /// The list is shown, and the user works on it.
    Ready,
    /// The user asked for a trim with nothing chosen, and is told so.
    PopupNoSelection,
    /// The user is asked for the credential.
    PopupPasswordInput,
    /// A trim is running.
    Trimming,
}

/// The keys that the program tells apart.
#[derive(Debug, Clone, Copy, PartialEq, Eq, Structural)]
pub enum Key {
    Esc,
    Enter,
    Backspace,
    Up,
    Down,
    Char(char),
    /// Any other key.
    Other,
}

/// A key that was pressed.
#[derive(Debug, Clone, Copy, PartialEq, Eq, Structural)]
pub struct KeyPress {
    pub key: Key,
    /// Whether the control key was held, and no other modifier.
    pub control: bool,
}

/// What the user asks for by a key while the list is shown.
#[derive(Debug, Clone, Copy, PartialEq, Eq, Structural)]
pub enum Intent {
    Quit,
    Navigate(Direction),
    ToggleOne,
    ToggleAll,
    ToggleFilter,
    ToggleSort,
    ConfirmTrim,
    Nothing,
}

/// The meaning of a key while the list is shown.
pub open spec fn intent_of(press: KeyPress) -> Intent {
    match press.key {
        Key::Esc => Intent::Quit,
        Key::Char(c) => if c == 'q' {
            Intent::Quit
        } else if press.control && (c == 'c' || c == 'C') {
            Intent::Quit
        } else if c == 'j' {
            Intent::Navigate(Direction::Down)
        } else if c == 'k' {
            Intent::Navigate(Direction::Up)
        } else if c == ' ' {
            Intent::ToggleOne
        } else if c == 'a' {
            Intent::ToggleAll
        } else if c == 'h' {
            Intent::ToggleFilter
        } else if c == 's' {
            Intent::ToggleSort
        } else {
            Intent::Nothing
        },
        Key::Down => Intent::Navigate(Direction::Down),
        Key::Up => Intent::Navigate(Direction::Up),
        Key::Enter => Intent::ConfirmTrim,
        _ => Intent::Nothing,
    }
}

/// Tells the meaning of a key while the list is shown.
pub fn read_intent(press: KeyPress) -> (r: Intent)
    ensures
        r == intent_of(press),
{
    match press.key {
        Key::Esc => Intent::Quit,
        Key::Char(c) => {
            if c == 'q' {
                Intent::Quit
            } else if press.control && (c == 'c' || c == 'C') {
                Intent::Quit
            } else if c == 'j' {
                Intent::Navigate(Direction::Down)
            } else if c == 'k' {
                Intent::Navigate(Direction::Up)
            } else if c == ' ' {
                Intent::ToggleOne
            } else if c == 'a' {
                Intent::ToggleAll
            } else if c == 'h' {
                Intent::ToggleFilter
            } else if c == 's' {
                Intent::ToggleSort
            } else {
                Intent::Nothing
            }
        },
        Key::Down => Intent::Navigate(Direction::Down),
        Key::Up => Intent::Navigate(Direction::Up),
        Key::Enter => Intent::ConfirmTrim,
        _ => Intent::Nothing,
    }
}

/// The other order.
pub open spec fn other_mode(mode: SortMode) -> SortMode {
    match mode {
        SortMode::Size => SortMode::Alphabetical,
        SortMode::Alphabetical => SortMode::Size,
    }
}

/// The state of the program.
pub struct App {
    running: bool,
    apps: Vec<AppInfo>,
    selected_index: usize,
    state: AppState,
    scan_progress: usize,
    scan_total: usize,
    trim_progress: usize,
    trim_total: usize,
    trim_current: String,
    password_input: String,
    show_non_toggleable: bool,
    sort_mode: SortMode,
}

/// The mathematical value of an `App`.
pub struct Model {
    /// Whether the program goes on.
    pub running: bool,
    /// The list of bundles.
    pub entries: Seq<Entry>,
    /// The position of the entry that the cursor is on.
    pub cursor: nat,
    pub state: AppState,
    /// The progress of the scan as last seen.
    pub scan_progress: nat,
    pub scan_total: nat,
    /// The progress of the trim as last seen.
    pub trim_progress: nat,
    pub trim_total: nat,
    pub trim_current: Seq<char>,
    /// The credential as typed so far.
    pub password: Seq<char>,
    /// Whether the entries that cannot be trimmed are shown too.
    pub show_all: bool,
    pub sort_mode: SortMode,
}

impl Model {
    /// The state in which the program starts.
    pub open spec fn initial() -> Model {
        Model {
            running: false,
            entries: Seq::empty(),
            cursor: 0,
            state: AppState::Loading,
            scan_progress: 0,
            scan_total: 0,
            trim_progress: 0,
            trim_total: 0,
            trim_current: Seq::empty(),
            password: Seq::empty(),
            show_all: false,
            sort_mode: SortMode::Size,
        }
    }

    /// What holds of the program's state at all times: the cursor lies in
    /// the list, or at 0 where the list is empty; there is no list before
    /// the first scan has ended; and the credential is asked for only
    /// while something is chosen.
    pub open spec fn wf(self) -> bool {
        &&& self.entries.len() == 0 ==> self.cursor == 0
        &&& self.entries.len() > 0 ==> self.cursor < self.entries.len()
        &&& self.state is Loading ==> self.entries.len() == 0
        &&& self.state is PopupPasswordInput ==> targets(self.entries).len() > 0
    }

    /// Where the cursor rests when the view changes: on the first entry
    /// where all are shown, else on the first that can be trimmed.
    pub open spec fn rest_position(self, entries: Seq<Entry>) -> nat {
        if self.show_all {
            0
        } else {
            home(entries) as nat
        }
    }

    /// The state after the scan's progress is seen; it is looked at only
    /// while the first scan runs.
    pub open spec fn after_scan_progress(self, completed: nat, total: nat) -> Model {
        if self.state is Loading {
            Model { scan_progress: completed, scan_total: total, ..self }
        } else {
            self
        }
    }

    /// The state after the first scan has delivered its list: the list is
    /// put into the current order and shown, the cursor on the first entry
    /// that can be trimmed.
    pub open spec fn after_scan(self, found: Seq<Entry>) -> Model {
        if self.state is Loading {
            let entries = sorted(found, self.sort_mode);
            Model { entries, cursor: home(entries) as nat, state: AppState::Ready, ..self }
        } else {
            self
        }
    }

    /// The state after the trim's progress is seen; it is looked at only
    /// while a trim runs.
    pub open spec fn after_trim_progress(self, completed: nat, total: nat, name: Seq<char>) -> Model {
        if self.state is Trimming {
            Model { trim_progress: completed, trim_total: total, trim_current: name, ..self }
        } else {
            self
        }
    }

    /// The state after a trim has delivered the list of its new scan: that
    /// list takes the place of the old one, whole.
    pub open spec fn after_trim(self, found: Seq<Entry>) -> Model {
        if self.state is Trimming {
            let entries = sorted(found, self.sort_mode);
            Model { entries, cursor: self.rest_position(entries), state: AppState::Ready, ..self }
        } else {
            self
        }
    }

    /// The state after the user's wish is carried out. A wish is heeded only
    /// while the list is shown.
    pub open spec fn after_intent(self, intent: Intent) -> Model {
        if self.state is Ready {
            self.carried_out(intent)
        } else {
            self
        }
    }

    /// The state after the user's wish is carried out, while the list is
    /// shown.
    pub open spec fn carried_out(self, intent: Intent) -> Model {
        match intent {
            Intent::Quit => Model { running: false, ..self },
            Intent::Navigate(dir) => Model {
                cursor: moved(self.entries, self.show_all, self.cursor as int, dir) as nat,
                ..self
            },
            Intent::ToggleOne => Model {
                entries: toggled(self.entries, self.cursor as int),
                ..self
            },
            Intent::ToggleAll => Model { entries: toggled_all(self.entries), ..self },
            Intent::ToggleFilter => {
                let shown = Model { show_all: !self.show_all, ..self };
                Model { cursor: shown.rest_position(self.entries), ..shown }
            },
            Intent::ToggleSort => Model {
                sort_mode: other_mode(self.sort_mode),
                entries: sorted(self.entries, other_mode(self.sort_mode)),
                cursor: 0,
                ..self
            },
            Intent::ConfirmTrim => if targets(self.entries).len() == 0 {
                Model { state: AppState::PopupNoSelection, ..self }
            } else {
                Model { password: Seq::empty(), state: AppState::PopupPasswordInput, ..self }
            },
            Intent::Nothing => self,
        }
    }

    /// Whether a key starts a trim: it is the enter key, pressed while the
    /// credential is asked for and after something was typed.
    pub open spec fn starts_trim(self, press: KeyPress) -> bool {
        self.state is PopupPasswordInput && press.key is Enter && self.password.len() > 0
    }

    /// The job of the trim that a key starts: the chosen entries as they
    /// stand in the list, and the credential as typed.
    pub open spec fn job(self) -> Job {
        Job { targets: targets(self.entries), password: self.password }
    }

    /// The state after a key is pressed. While a scan or a trim runs no key
    /// is heeded.
    pub open spec fn after_key(self, press: KeyPress) -> Model {
        match self.state {
            AppState::Ready => self.carried_out(intent_of(press)),
            AppState::PopupNoSelection => match press.key {
                Key::Enter | Key::Esc => Model { state: AppState::Ready, ..self },
                _ => self,
            },
            AppState::PopupPasswordInput => match press.key {
                Key::Char(c) => Model { password: self.password.push(c), ..self },
                Key::Backspace => if self.password.len() > 0 {
                    Model { password: self.password.drop_last(), ..self }
                } else {
                    self
                },
                Key::Enter => if self.password.len() > 0 {
                    Model { password: Seq::empty(), state: AppState::Trimming, ..self }
                } else {
                    self
                },
                Key::Esc => Model { password: Seq::empty(), state: AppState::Ready, ..self },
                _ => self,
            },
            _ => self,
        }
    }
}

impl View for App {
    type V = Model;

    closed spec fn view(&self) -> Model {
        Model {
            running: self.running,
            entries: entries_of(self.apps@),
            cursor: self.selected_index as nat,
            state: self.state,
            scan_progress: self.scan_progress as nat,
            scan_total: self.scan_total as nat,
            trim_progress: self.trim_progress as nat,
            trim_total: self.trim_total as nat,
            trim_current: self.trim_current@,
            password: self.password_input@,
            show_all: self.show_non_toggleable,
            sort_mode: self.sort_mode,
        }
    }
}

impl Default for App {
    fn default() -> (r: App)
        ensures
            r@ == Model::initial(),
    {
        App::new()
    }
}

impl App {
    /// The program as it starts: the first scan is running, and nothing is
    /// known yet.
    pub fn new() -> (r: App)
        ensures
            r@ == Model::initial(),
            r@.wf(),
    {
        let r = App {
            running: false,
            apps: Vec::new(),
            selected_index: 0,
            state: AppState::Loading,
            scan_progress: 0,
            scan_total: 0,
            trim_progress: 0,
            trim_total: 0,
            trim_current: String::new(),
            password_input: String::new(),
            show_non_toggleable: false,
            sort_mode: SortMode::Size,
        };
        assert(entries_of(r.apps@) =~= Seq::<Entry>::empty());
        r
    }

    /// Sets the program going.
    pub fn start(&mut self)
        ensures
            final(self)@ == (Model { running: true, ..old(self)@ }),
    {
        self.running = true;
    }

    /// Whether the program goes on.
    pub fn running(&self) -> (r: bool)
        ensures
            r == self@.running,
    {
        self.running
    }

    /// The phase that the program is in.
    pub fn state(&self) -> (r: AppState)
        ensures
            r == self@.state,
    {
        self.state
    }

    /// Whether the list is shown, so that the user's wishes are heeded.
    pub fn is_ready(&self) -> (r: bool)
        ensures
            r == (self@.state is Ready),
    {
        match self.state {
            AppState::Ready => true,
            _ => false,
        }
    }

    /// Whether a scan or a trim is running, so that its reports have to be
    /// looked for while the program waits for a key.
    pub fn awaits_worker(&self) -> (r: bool)
        ensures
            r == (self@.state is Loading || self@.state is Trimming),
    {
        match self.state {
            AppState::Loading | AppState::Trimming => true,
            _ => false,
        }
    }

    /// The list of bundles.
    pub fn apps(&self) -> (r: &Vec<AppInfo>)
        ensures
            entries_of(r@) == self@.entries,
    {
        &self.apps
    }

    /// The position of the entry that the cursor is on.
    pub fn selected_index(&self) -> (r: usize)
        ensures
            r == self@.cursor,
    {
        self.selected_index
    }

    /// The progress of the scan as last seen.
    pub fn scan_progress(&self) -> (r: ScanProgress)
        ensures
            r.completed == self@.scan_progress,
            r.total == self@.scan_total,
    {
        ScanProgress { completed: self.scan_progress, total: self.scan_total }
    }

    /// The number of bundles that the trim has come to, as last seen.
    pub fn trim_progress(&self) -> (r: usize)
        ensures
            r == self@.trim_progress,
    {
        self.trim_progress
    }

    /// The number of bundles that the trim works on, as last seen.
    pub fn trim_total(&self) -> (r: usize)
        ensures
            r == self@.trim_total,
    {
        self.trim_total
    }

    /// The name of the bundle that the trim is at, as last seen.
    pub fn trim_current(&self) -> (r: &String)
        ensures
            r@ == self@.trim_current,
    {
        &self.trim_current
    }

    /// The credential as typed so far.
    pub fn password_input(&self) -> (r: &String)
        ensures
            r@ == self@.password,
    {
        &self.password_input
    }

    /// Whether the entries that cannot be trimmed are shown too.
    pub fn show_non_toggleable(&self) -> (r: bool)
        ensures
            r == self@.show_all,
    {
        self.show_non_toggleable
    }

    /// The order in which the list is shown.
    pub fn sort_mode(&self) -> (r: SortMode)
        ensures
            r == self@.sort_mode,
    {
        self.sort_mode
    }

    /// The positions of the entries that the filter shows.
    pub fn visible_indices(&self) -> (r: Vec<usize>)
        ensures
            positions(r@) == visible_indices(self@.entries, self@.show_all),
    {
        visible_positions(&self.apps, self.show_non_toggleable)
    }

    /// The place of the cursor's entry in the filtered view, `None` where
    /// the view does not show it.
    pub fn visible_position(&self) -> (r: Option<usize>)
        ensures
            match r {
                Some(k) => is_place_of(self@.entries, self@.show_all, self@.cursor as int, k as int),
                None => forall|k: int|
                    !is_place_of(self@.entries, self@.show_all, self@.cursor as int, k),
            },
    {
        place_in_view(&self.apps, self.show_non_toggleable, self.selected_index)
    }

    /// Makes the program end.
    pub fn quit(&mut self)
        ensures
            final(self)@ == old(self)@.after_intent(Intent::Quit),
    {
        if self.is_ready() {
            self.running = false;
        }
    }

    /// Where the cursor rests when the view changes.
    fn rest_position(&self, apps: &Vec<AppInfo>) -> (r: usize)
        ensures
            r == self@.rest_position(entries_of(apps@)),
    {
        if self.show_non_toggleable {
            0
        } else {
            home_position(apps)
        }
    }

    /// Moves the cursor to the nearest visible entry in the given
    /// direction.
    pub fn navigate(&mut self, dir: Direction)
        ensures
            final(self)@ == old(self)@.after_intent(Intent::Navigate(dir)),
    {
        if self.is_ready() {
            self.selected_index = move_cursor(
                &self.apps,
                self.show_non_toggleable,
                self.selected_index,
                dir,
            );
        }
    }

    /// Moves the cursor down.
    pub fn move_down(&mut self)
        ensures
            final(self)@ == old(self)@.after_intent(Intent::Navigate(Direction::Down)),
    {
        self.navigate(Direction::Down)
    }

    /// Moves the cursor up.
    pub fn move_up(&mut self)
        ensures
            final(self)@ == old(self)@.after_intent(Intent::Navigate(Direction::Up)),
    {
        self.navigate(Direction::Up)
    }

    /// Turns over the mark of the entry under the cursor.
    pub fn toggle_selected(&mut self)
        ensures
            final(self)@ == old(self)@.after_intent(Intent::ToggleOne),
    {
        if self.is_ready() {
            toggle_at(&mut self.apps, self.selected_index);
        }
    }

    /// Turns over all marks at once.
    pub fn toggle_select_all(&mut self)
        ensures
            final(self)@ == old(self)@.after_intent(Intent::ToggleAll),
    {
        if self.is_ready() {
            toggle_all(&mut self.apps);
        }
    }

    /// Shows or hides the entries that cannot be trimmed.
    pub fn toggle_visibility(&mut self)
        ensures
            final(self)@ == old(self)@.after_intent(Intent::ToggleFilter),
    {
        if self.is_ready() {
            self.show_non_toggleable = !self.show_non_toggleable;
            self.selected_index = self.rest_position(&self.apps);
        }
    }

    /// Puts the list into the current order.
    fn sort_apps(&mut self)
        ensures
            final(self)@ == (Model {
                entries: sorted(old(self)@.entries, old(self)@.sort_mode),
                ..old(self)@
            }),
    {
        let mut apps: Vec<AppInfo> = Vec::new();
        core::mem::swap(&mut apps, &mut self.apps);
        self.apps = sort_entries(apps, self.sort_mode);
    }

    /// Changes to the other order.
    pub fn toggle_sort(&mut self)
        ensures
            final(self)@ == old(self)@.after_intent(Intent::ToggleSort),
    {
        if self.is_ready() {
            self.sort_mode = match self.sort_mode {
                SortMode::Size => SortMode::Alphabetical,
                SortMode::Alphabetical => SortMode::Size,
            };
            self.sort_apps();
            self.selected_index = 0;
        }
    }

    /// Asks for the confirmation of a trim: with nothing chosen the user is
    /// told so, else asked for the credential.
    pub fn start_trim(&mut self)
        ensures
            final(self)@ == old(self)@.after_intent(Intent::ConfirmTrim),
    {
        if self.is_ready() {
            let chosen = selected_targets(&self.apps);
            if chosen.len() == 0 {
                self.state = AppState::PopupNoSelection;
            } else {
                self.password_input = String::new();
                self.state = AppState::PopupPasswordInput;
            }
        }
    }

    /// Fixes what a trim works on, and passes to the phase in which it
    /// runs.
    fn execute_trim(&mut self) -> (r: TrimJob)
        ensures
            r@ == old(self)@.job(),
            final(self)@ == (Model {
                password: Seq::empty(),
                state: AppState::Trimming,
                ..old(self)@
            }),
    {
        let targets = selected_targets(&self.apps);
        let mut password = String::new();
        core::mem::swap(&mut password, &mut self.password_input);
        self.state = AppState::Trimming;
        TrimJob { targets, password }
    }

    /// Carries out what the user asks for while the list is shown.
    pub fn apply(&mut self, intent: Intent)
        ensures
            final(self)@ == old(self)@.after_intent(intent),
    {
        match intent {
            Intent::Quit => self.quit(),
            Intent::Navigate(dir) => self.navigate(dir),
            Intent::ToggleOne => self.toggle_selected(),
            Intent::ToggleAll => self.toggle_select_all(),
            Intent::ToggleFilter => self.toggle_visibility(),
            Intent::ToggleSort => self.toggle_sort(),
            Intent::ConfirmTrim => self.start_trim(),
            Intent::Nothing => {},
        }
    }

    /// Reacts to a key. The result is the job of the trim that the key
    /// started, to be handed to a worker, and `None` where it started none.
    pub fn on_key_event(&mut self, press: KeyPress) -> (r: Option<TrimJob>)
        ensures
            final(self)@ == old(self)@.after_key(press),
            match r {
                Some(job) => old(self)@.starts_trim(press) && job@ == old(self)@.job(),
                None => !old(self)@.starts_trim(press),
            },
    {
        match self.state {
            AppState::Ready => {
                self.apply(read_intent(press));
                None
            },
            AppState::PopupNoSelection => {
                match press.key {
                    Key::Enter | Key::Esc => {
                        self.state = AppState::Ready;
                    },
                    _ => {},
                }
                None
            },
            AppState::PopupPasswordInput => {
                match press.key {
                    Key::Char(c) => {
                        self.password_input.push(c);
                        None
                    },
                    Key::Backspace => {
                        self.password_input.pop();
                        None
                    },
                    Key::Enter => {
                        if !self.password_input.as_str().is_empty() {
                            Some(self.execute_trim())
                        } else {
                            None
                        }
                    },
                    Key::Esc => {
                        self.password_input = String::new();
                        self.state = AppState::Ready;
                        None
                    },
                    _ => None,
                }
            },
            _ => None,
        }
    }

    /// Takes note of the scan's progress.
    pub fn observe_scan_progress(&mut self, progress: ScanProgress)
        ensures
            final(self)@ == old(self)@.after_scan_progress(
                progress.completed as nat,
                progress.total as nat,
            ),
    {
        if let AppState::Loading = self.state {
            self.scan_progress = progress.completed;
            self.scan_total = progress.total;
        }
    }

    /// Takes the list that the first scan delivers.
    pub fn finish_scan(&mut self, apps: Vec<AppInfo>)
        ensures
            final(self)@ == old(self)@.after_scan(entries_of(apps@)),
    {
        if let AppState::Loading = self.state {
            let sorted = sort_entries(apps, self.sort_mode);
            self.selected_index = home_position(&sorted);
            self.apps = sorted;
            self.state = AppState::Ready;
        }
    }

    /// Takes note of the trim's progress.
    pub fn observe_trim_progress(&mut self, progress: TrimProgress)
        ensures
            final(self)@ == old(self)@.after_trim_progress(
                progress@.completed,
                progress@.total,
                progress@.current_name,
            ),
    {
        if let AppState::Trimming = self.state {
            self.trim_progress = progress.completed;
            self.trim_total = progress.total;
            self.trim_current = progress.current_name;
        }
    }

    /// Takes the list that the scan after a trim delivers.
    pub fn finish_trim(&mut self, apps: Vec<AppInfo>)
        ensures
            final(self)@ == old(self)@.after_trim(entries_of(apps@)),
    {
        if let AppState::Trimming = self.state {
            let sorted = sort_entries(apps, self.sort_mode);
            self.selected_index = self.rest_position(&sorted);
            self.apps = sorted;
            self.state = AppState::Ready;
        }
    }
}

/// The program starts in a state of which the invariant holds.
pub proof fn lemma_initial_wf()
    ensures
        Model::initial().wf(),
{
}

/// Whatever the user asks for, the invariant holds afterwards.
pub proof fn lemma_intent_preserves_wf(m: Model, intent: Intent)
    requires
        m.wf(),
    ensures
        m.after_intent(intent).wf(),
{
    if m.state is Ready {
        match intent {
            Intent::Navigate(dir) => {
                if m.entries.len() > 0 {
                    lemma_moved(m.entries, m.show_all, m.cursor as int, dir);
                }
            },
            Intent::ToggleFilter => {
                lemma_home_in_list(m.entries);
            },
            Intent::ToggleSort => {
                lemma_sorted_is_permutation(m.entries, other_mode(m.sort_mode));
            },
            _ => {},
        }
    }
}

/// Whatever key is pressed, the invariant holds afterwards.
pub proof fn lemma_key_preserves_wf(m: Model, press: KeyPress)
    requires
        m.wf(),
    ensures
        m.after_key(press).wf(),
{
    if m.state is Ready {
        lemma_intent_preserves_wf(m, intent_of(press));
    }
}

/// Whatever a scan or a trim reports, the invariant holds afterwards, and a
/// delivered list takes the place of the old one: the new list holds the
/// delivered entries and no others.
pub proof fn lemma_reports_preserve_wf(
    m: Model,
    found: Seq<Entry>,
    completed: nat,
    total: nat,
    name: Seq<char>,
)
    requires
        m.wf(),
    ensures
        m.after_scan_progress(completed, total).wf(),
        m.after_trim_progress(completed, total, name).wf(),
        m.after_scan(found).wf(),
        m.after_trim(found).wf(),
        m.state is Loading ==> m.after_scan(found).entries.to_multiset() == found.to_multiset(),
        m.state is Trimming ==> m.after_trim(found).entries.to_multiset() == found.to_multiset(),
{
    lemma_sorted_is_permutation(found, m.sort_mode);
    lemma_home_in_list(sorted(found, m.sort_mode));
}

/// A trim starts only where the credential is not empty and something is
/// chosen; it works on entries that are marked and hold the removable
/// architecture, and on no others.
pub proof fn lemma_trim_starts_with_targets(m: Model, press: KeyPress)
    requires
        m.wf(),
        m.starts_trim(press),
    ensures
        m.job().password.len() > 0,
        m.job().targets.len() > 0,
        forall|k: int|
            0 <= k < m.job().targets.len() ==> (#[trigger] m.job().targets[k]).selected
                && m.job().targets[k].has_removable(),
        m.after_key(press).state is Trimming,
        m.after_key(press).entries == m.entries,
{
    lemma_targets(m.entries);
}

} // verus!
