//! The selection state machine: a list of themes, a cursor on it, and the
//! two modes that stand between a key press and a changed configuration.

use vstd::prelude::*;
use vstd::string::StringExecFns;
use crate::config::SddmConfig;
use crate::theme::SddmTheme;

verus! {

/// A key, as far as the state machine tells keys apart.
#[derive(Debug, Clone, Copy, PartialEq, Eq, Structural)]
pub enum Key {
    Up,
    Down,
    Enter,
    Esc,
    Char(char),
    /// Any other key.
    Other,
}

/// What the caller is to do when the interaction is over.
#[derive(Debug)]
pub enum ExitAction {
    /// The user left without choosing a theme.
    Quit,
    /// The user confirmed the theme of this name.
    ApplyTheme(String),
}

/// The modes of the interaction.
#[derive(Debug, Clone, Copy, PartialEq, Eq, Structural)]
pub enum Mode {
    /// Moving through the list.
    Browsing,
    /// Asked whether the highlighted theme is to be applied.
    Confirming,
}

/// The state of the interaction.
pub struct App {
    /// The installed themes, sorted by name.
    pub themes: Vec<SddmTheme>,
    /// Index of the highlighted theme; `None` only when there are no themes.
    pub cursor: Option<usize>,
    /// Name of the theme that the configuration records.
    pub current_theme: Option<String>,
    /// The loaded configuration.
    pub config: SddmConfig,
    /// The mode.
    pub mode: Mode,
    /// A notice for the status line.
    pub status: Option<String>,
}

// ---------------------------------------------------------------------
// The model
// ---------------------------------------------------------------------

/// The cursor one step down from `i` in a list of `len`, around the end.
pub open spec fn down(i: int, len: int) -> int {
    (i + 1) % len
}

/// The cursor one step up from `i` in a list of `len`, around the start.
pub open spec fn up(i: int, len: int) -> int {
    if i == 0 {
        len - 1
    } else {
        i - 1
    }
}

/// The cursor `n` steps down from `i`.
pub open spec fn steps_down(i: int, len: int, n: nat) -> int
    decreases n,
{
    if n == 0 {
        i
    } else {
        down(steps_down(i, len, (n - 1) as nat), len)
    }
}

/// The cursor `n` steps up from `i`.
pub open spec fn steps_up(i: int, len: int, n: nat) -> int
    decreases n,
{
    if n == 0 {
        i
    } else {
        up(steps_up(i, len, (n - 1) as nat), len)
    }
}

/// What a key asks for in a mode.
pub enum Command {
    MoveUp,
    MoveDown,
    /// Ask for confirmation of the highlighted theme.
    Activate,
    /// Leave without a change.
    Quit,
    /// Apply the highlighted theme.
    Confirm,
    /// Go back to the list.
    Cancel,
    /// Nothing.
    Ignore,
}

/// The command that `key` gives in `mode`.
pub open spec fn command_of(mode: Mode, key: Key) -> Command {
    match mode {
        Mode::Browsing => match key {
            Key::Up => Command::MoveUp,
            Key::Down => Command::MoveDown,
            Key::Enter => Command::Activate,
            Key::Esc => Command::Quit,
            Key::Char(c) => if c == 'k' {
                Command::MoveUp
            } else if c == 'j' {
                Command::MoveDown
            } else if c == 'q' {
                Command::Quit
            } else {
                Command::Ignore
            },
            Key::Other => Command::Ignore,
        },
        Mode::Confirming => match key {
            Key::Enter => Command::Confirm,
            Key::Esc => Command::Cancel,
            Key::Char(c) => if c == 'y' || c == 'Y' {
                Command::Confirm
            } else if c == 'n' || c == 'N' {
                Command::Cancel
            } else {
                Command::Ignore
            },
            _ => Command::Ignore,
        },
    }
}

/// The mode after `key` in `mode`, with `len` themes in the list.
pub open spec fn next_mode(mode: Mode, key: Key, len: int) -> Mode {
    match command_of(mode, key) {
        Command::Activate => if len > 0 {
            Mode::Confirming
        } else {
            mode
        },
        Command::Cancel => Mode::Browsing,
        _ => mode,
    }
}

/// The cursor after `key` in `mode`.
pub open spec fn next_cursor(mode: Mode, key: Key, cursor: Option<usize>, len: int) -> Option<
    usize,
> {
    match cursor {
        None => None,
        Some(i) => match command_of(mode, key) {
            Command::MoveUp => Some(up(i as int, len) as usize),
            Command::MoveDown => Some(down(i as int, len) as usize),
            _ => cursor,
        },
    }
}

/// The notice that tells that no themes are installed.
pub open spec fn no_themes_notice() -> Seq<char> {
    "No themes found in /usr/share/sddm/themes/"@
}

/// Index of the first of `themes`, at or after `from`, whose name is
/// `name`, or their number when there is none.
pub open spec fn first_named(themes: Seq<SddmTheme>, name: Seq<char>, from: int) -> int
    decreases themes.len() - from,
{
    if from >= themes.len() {
        themes.len() as int
    } else if themes[from].name@ == name {
        from
    } else {
        first_named(themes, name, from + 1)
    }
}

/// Where the cursor starts: on the first theme that has the recorded name,
/// else on the first theme, or nowhere when there are no themes.
pub open spec fn initial_cursor(themes: Seq<SddmTheme>, current: Option<String>) -> Option<int> {
    if themes.len() == 0 {
        None
    } else {
        match current {
            Some(name) => if first_named(themes, name@, 0) < themes.len() {
                Some(first_named(themes, name@, 0))
            } else {
                Some(0)
            },
            None => Some(0),
        }
    }
}

impl App {
    /// Whether the state is well formed: the cursor is on a theme exactly
    /// when there are themes, and without themes the mode is `Browsing`.
    pub open spec fn wf(&self) -> bool {
        &&& self.themes.len() == 0 ==> self.cursor is None && self.mode == Mode::Browsing
        &&& self.themes.len() > 0 ==> self.cursor is Some && self.cursor->0 < self.themes.len()
    }

    /// Whether the state is well formed.
    pub fn is_well_formed(&self) -> (b: bool)
        ensures
            b == self.wf(),
    {
        if self.themes.len() == 0 {
            self.cursor.is_none() && self.mode == Mode::Browsing
        } else {
            match self.cursor {
                Some(i) => i < self.themes.len(),
                None => false,
            }
        }
    }

    /// Whether `other` differs from this state in cursor and mode at most.
    pub open spec fn same_data(&self, other: &App) -> bool {
        &&& self.themes == other.themes
        &&& self.current_theme == other.current_theme
        &&& self.config == other.config
        &&& self.status == other.status
    }

    /// The state at the start: the cursor on the theme that the
    /// configuration records, where that is in the list, else on the first
    /// theme; `Browsing`; and a notice where there are no themes.
    pub fn new(themes: Vec<SddmTheme>, config: SddmConfig) -> (app: App)
        ensures
            app.wf(),
            app.themes == themes,
            app.config == config,
            app.current_theme == config.current_theme,
            app.mode == Mode::Browsing,
            match app.cursor {
                Some(i) => initial_cursor(themes@, config.current_theme) == Some(i as int),
                None => initial_cursor(themes@, config.current_theme) is None,
            },
            match app.status {
                Some(notice) => themes.len() == 0 && notice@ == no_themes_notice(),
                None => themes.len() > 0,
            },
    {
        let mut found: usize = themes.len();
        let current_theme = match &config.current_theme {
            Some(name) => {
                let mut i: usize = 0;
                while i < themes.len() && themes[i].name != *name
                    invariant
                        0 <= i <= themes.len(),
                        first_named(themes@, name@, 0) == first_named(themes@, name@, i as int),
                    decreases themes.len() - i,
                {
                    i += 1;
                }
                found = i;
                Some(name.clone())
            },
            None => None,
        };
        let cursor = if themes.len() == 0 {
            None
        } else if found < themes.len() {
            Some(found)
        } else {
            Some(0)
        };
        let status = if themes.len() == 0 {
            Some(String::from_str("No themes found in /usr/share/sddm/themes/"))
        } else {
            None
        };
        App { themes, cursor, current_theme, config, mode: Mode::Browsing, status }
    }

    /// Index of the highlighted theme.
    pub fn selected_index(&self) -> (index: Option<usize>)
        ensures
            index == self.cursor,
    {
        self.cursor
    }

    /// The highlighted theme.
    pub fn highlighted_theme(&self) -> (theme: Option<&SddmTheme>)
        ensures
            match self.cursor {
                Some(i) => if i < self.themes.len() {
                    theme == Some(&self.themes[i as int])
                } else {
                    theme is None
                },
                None => theme is None,
            },
    {
        match self.cursor {
            Some(i) => if i < self.themes.len() {
                Some(&self.themes[i])
            } else {
                None
            },
            None => None,
        }
    }

    /// Moves the cursor one theme up, from the first theme to the last.
    /// Does nothing when there are no themes.
    pub fn move_up(&mut self)
        requires
            old(self).wf(),
        ensures
            final(self).wf(),
            old(self).same_data(final(self)),
            final(self).mode == old(self).mode,
            final(self).cursor == match old(self).cursor {
                Some(i) => Some(up(i as int, old(self).themes.len() as int) as usize),
                None => None,
            },
    {
        match self.cursor {
            None => {},
            Some(i) => {
                if i == 0 {
                    self.cursor = Some(self.themes.len() - 1);
                } else {
                    self.cursor = Some(i - 1);
                }
            },
        }
    }

    /// Moves the cursor one theme down, from the last theme to the first.
    /// Does nothing when there are no themes.
    pub fn move_down(&mut self)
        requires
            old(self).wf(),
        ensures
            final(self).wf(),
            old(self).same_data(final(self)),
            final(self).mode == old(self).mode,
            final(self).cursor == match old(self).cursor {
                Some(i) => Some(down(i as int, old(self).themes.len() as int) as usize),
                None => None,
            },
    {
        match self.cursor {
            None => {},
            Some(i) => {
                if i + 1 == self.themes.len() {
                    assert(down(i as int, self.themes.len() as int) == 0) by {
                        let len = self.themes.len() as int;
                        assert(len % len == 0) by (nonlinear_arith)
                            requires
                                len > 0,
                        ;
                    }
                    self.cursor = Some(0);
                } else {
                    assert(down(i as int, self.themes.len() as int) == i + 1) by {
                        let len = self.themes.len() as int;
                        let j = i + 1;
                        assert(j % len == j) by (nonlinear_arith)
                            requires
                                0 <= j < len,
                        ;
                    }
                    self.cursor = Some(i + 1);
                }
            },
        }
    }

    /// Takes a key press. Returns what the caller is to do when the
    /// interaction ends with this key, and `None` when it goes on.
    ///
    /// While browsing, the arrow keys and `k`/`j` move the cursor, Enter
    /// asks for confirmation where there is a theme, `q` and Escape quit.
    /// While confirming, Enter and `y` apply the highlighted theme, `n` and
    /// Escape go back to browsing. Every other key is ignored.
    pub fn handle_key(&mut self, key: Key) -> (exit: Option<ExitAction>)
        requires
            old(self).wf(),
        ensures
            final(self).wf(),
            old(self).same_data(final(self)),
            final(self).mode == next_mode(old(self).mode, key, old(self).themes.len() as int),
            final(self).cursor == next_cursor(
                old(self).mode,
                key,
                old(self).cursor,
                old(self).themes.len() as int,
            ),
            match command_of(old(self).mode, key) {
                Command::Quit => exit matches Some(ExitAction::Quit),
                Command::Confirm => exit matches Some(ExitAction::ApplyTheme(name)) && name@
                    == old(self).themes[old(self).cursor->0 as int].name@,
                _ => exit is None,
            },
    {
        match self.mode {
            Mode::Browsing => self.handle_browsing_key(key),
            Mode::Confirming => self.handle_confirming_key(key),
        }
    }

    fn handle_browsing_key(&mut self, key: Key) -> (exit: Option<ExitAction>)
        requires
            old(self).wf(),
            old(self).mode == Mode::Browsing,
        ensures
            final(self).wf(),
            old(self).same_data(final(self)),
            final(self).mode == next_mode(old(self).mode, key, old(self).themes.len() as int),
            final(self).cursor == next_cursor(
                old(self).mode,
                key,
                old(self).cursor,
                old(self).themes.len() as int,
            ),
            match command_of(old(self).mode, key) {
                Command::Quit => exit matches Some(ExitAction::Quit),
                _ => exit is None,
            },
    {
        match key {
            Key::Up | Key::Char('k') => {
                self.move_up();
                None
            },
            Key::Down | Key::Char('j') => {
                self.move_down();
                None
            },
            Key::Enter => {
                if self.themes.len() > 0 {
                    self.mode = Mode::Confirming;
                }
                None
            },
            Key::Char('q') | Key::Esc => Some(ExitAction::Quit),
            _ => None,
        }
    }

    fn handle_confirming_key(&mut self, key: Key) -> (exit: Option<ExitAction>)
        requires
            old(self).wf(),
            old(self).mode == Mode::Confirming,
        ensures
            final(self).wf(),
            old(self).same_data(final(self)),
            final(self).mode == next_mode(old(self).mode, key, old(self).themes.len() as int),
            final(self).cursor == old(self).cursor,
            match command_of(old(self).mode, key) {
                Command::Confirm => exit matches Some(ExitAction::ApplyTheme(name)) && name@
                    == old(self).themes[old(self).cursor->0 as int].name@,
                _ => exit is None,
            },
    {
        match key {
            Key::Enter | Key::Char('y') | Key::Char('Y') => {
                match self.highlighted_theme() {
                    Some(theme) => Some(ExitAction::ApplyTheme(theme.name.clone())),
                    None => None,
                }
            },
            Key::Char('n') | Key::Char('N') | Key::Esc => {
                self.mode = Mode::Browsing;
                None
            },
            _ => None,
        }
    }
}

// ---------------------------------------------------------------------
// Events
// ---------------------------------------------------------------------

/// What the terminal reports.
#[derive(Debug, Clone, Copy, PartialEq, Eq, Structural)]
pub enum Event {
    /// A key went down.
    KeyPress(Key),
    /// A key came up or repeats.
    KeyOther(Key),
    /// The terminal has a new size.
    Resize,
    /// Anything else.
    Other,
}

/// What the event loop is to do next.
#[derive(Debug)]
pub enum LoopStep {
    /// Draw and wait for the next event.
    Continue,
    /// Fit the drawing to the new size, then go on.
    Resize,
    /// Leave the loop with this action.
    Exit(ExitAction),
}

impl App {
    /// Takes one event of the terminal. Only a key that went down reaches
    /// the state machine; a new size asks for a fitted drawing; everything
    /// else changes nothing.
    pub fn handle_event(&mut self, event: Event) -> (step: LoopStep)
        requires
            old(self).wf(),
        ensures
            final(self).wf(),
            old(self).same_data(final(self)),
            match event {
                Event::KeyPress(key) => {
                    &&& final(self).mode == next_mode(
                        old(self).mode,
                        key,
                        old(self).themes.len() as int,
                    )
                    &&& final(self).cursor == next_cursor(
                        old(self).mode,
                        key,
                        old(self).cursor,
                        old(self).themes.len() as int,
                    )
                    &&& match command_of(old(self).mode, key) {
                        Command::Quit => step matches LoopStep::Exit(ExitAction::Quit),
                        Command::Confirm => step matches LoopStep::Exit(
                            ExitAction::ApplyTheme(name),
                        ) && name@ == old(self).themes[old(self).cursor->0 as int].name@,
                        _ => step is Continue,
                    }
                },
                Event::Resize => {
                    &&& final(self).mode == old(self).mode
                    &&& final(self).cursor == old(self).cursor
                    &&& step is Resize
                },
                _ => {
                    &&& final(self).mode == old(self).mode
                    &&& final(self).cursor == old(self).cursor
                    &&& step is Continue
                },
            },
    {
        match event {
            Event::KeyPress(key) => match self.handle_key(key) {
                Some(action) => LoopStep::Exit(action),
                None => LoopStep::Continue,
            },
            Event::Resize => LoopStep::Resize,
            _ => LoopStep::Continue,
        }
    }
}

// ---------------------------------------------------------------------
// What holds of the state machine
// ---------------------------------------------------------------------

/// A step up or down stays within the list.
pub proof fn lemma_step_in_range(i: int, len: int)
    requires
        0 <= i < len,
    ensures
        0 <= down(i, len) < len,
        0 <= up(i, len) < len,
{
    assert(0 <= (i + 1) % len < len) by (nonlinear_arith)
        requires
            len > 0,
    ;
}

/// A step down from the last theme leads to the first, a step up from the
/// first theme to the last.
pub proof fn lemma_steps_wrap(len: int)
    requires
        len > 0,
    ensures
        down(len - 1, len) == 0,
        up(0, len) == len - 1,
{
    assert(len % len == 0) by (nonlinear_arith)
        requires
            len > 0,
    ;
}

/// A step up undoes a step down, and a step down undoes a step up.
pub proof fn lemma_up_down_inverse(i: int, len: int)
    requires
        0 <= i < len,
    ensures
        up(down(i, len), len) == i,
        down(up(i, len), len) == i,
{
    lemma_steps_wrap(len);
    if i + 1 < len {
        assert((i + 1) % len == i + 1) by (nonlinear_arith)
            requires
                0 <= i + 1 < len,
        ;
    }
    if i > 0 {
        assert(i % len == i) by (nonlinear_arith)
            requires
                0 <= i < len,
        ;
    }
}

/// Where `n` steps down lead: `n` places further, counted around the list.
pub proof fn lemma_steps_down(i: int, len: int, n: nat)
    requires
        0 <= i < len,
    ensures
        steps_down(i, len, n) == (i + n) % len,
    decreases n,
{
    if n == 0 {
        assert(i % len == i) by (nonlinear_arith)
            requires
                0 <= i < len,
        ;
    } else {
        lemma_steps_down(i, len, (n - 1) as nat);
        let m = i + n - 1;
        assert(((m % len) + 1) % len == (m + 1) % len) by (nonlinear_arith)
            requires
                len > 0,
        ;
    }
}

/// As many steps down as there are themes lead back to where they began.
pub proof fn lemma_down_full_cycle(i: int, len: int)
    requires
        0 <= i < len,
    ensures
        steps_down(i, len, len as nat) == i,
{
    lemma_steps_down(i, len, len as nat);
    assert((i + len) % len == i) by (nonlinear_arith)
        requires
            0 <= i < len,
    ;
}

/// `n` steps up undo `n` steps down.
proof fn lemma_steps_up_undo(i: int, len: int, n: nat)
    requires
        0 <= i < len,
    ensures
        0 <= steps_up(i, len, n) < len,
        steps_down(steps_up(i, len, n), len, n) == i,
    decreases n,
{
    if n > 0 {
        let k = (n - 1) as nat;
        lemma_steps_up_undo(i, len, k);
        let a = steps_up(i, len, k);
        let b = up(a, len);
        lemma_step_in_range(a, len);
        lemma_up_down_inverse(a, len);
        lemma_steps_down_shift(b, len, k);
    }
}

/// `n + 1` steps down are one step down followed by `n` steps down.
proof fn lemma_steps_down_shift(i: int, len: int, n: nat)
    ensures
        steps_down(i, len, n + 1) == steps_down(down(i, len), len, n),
    decreases n,
{
    assert(steps_down(i, len, n + 1) == down(steps_down(i, len, n), len));
    if n > 0 {
        lemma_steps_down_shift(i, len, (n - 1) as nat);
        assert(steps_down(down(i, len), len, n) == down(
            steps_down(down(i, len), len, (n - 1) as nat),
            len,
        ));
    } else {
        assert(steps_down(i, len, 0) == i);
    }
}

/// As many steps up as there are themes lead back to where they began.
pub proof fn lemma_up_full_cycle(i: int, len: int)
    requires
        0 <= i < len,
    ensures
        steps_up(i, len, len as nat) == i,
{
    let j = steps_up(i, len, len as nat);
    lemma_steps_up_undo(i, len, len as nat);
    lemma_down_full_cycle(j, len);
}

/// The confirmation protocol. The mode becomes `Confirming` only by Enter
/// while browsing a list that is not empty; only a key pressed while
/// confirming applies a theme; and a cancelled confirmation leads back to
/// browsing, where no key applies one.
pub proof fn lemma_confirmation_protocol(mode: Mode, key: Key, len: int)
    ensures
        mode == Mode::Browsing && next_mode(mode, key, len) == Mode::Confirming ==> key
            == Key::Enter && len > 0,
        command_of(mode, key) is Confirm ==> mode == Mode::Confirming,
        mode == Mode::Confirming && next_mode(mode, key, len) != mode ==> command_of(mode, key)
            is Cancel && next_mode(mode, key, len) == Mode::Browsing,
        command_of(mode, key) is MoveUp || command_of(mode, key) is MoveDown ==> next_mode(
            mode,
            key,
            len,
        ) == mode,
{
}

} // verus!
