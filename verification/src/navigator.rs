//! Browsing the results of a search in the terminal.
//!
//! The navigator owns the results and holds which of them is shown and how far
//! it is scrolled. It does none of the drawing or reading itself: it is told
//! what happened, and answers with what is to be done. The caller draws,
//! scrolls the view, opens links and leaves, and reports each drawing back
//! together with the scroll offset that the view settled on.
//!
//! The scroll offset is kept when another result is chosen. The view clamps it
//! to the bounds of the new text, and the clamped offset comes back with the
//! next drawing.

use crate::link::{open_target, open_target_of};
use crate::section::{Section, SectionView, section_views};
use crate::text::{chars_of, decimal, push_all, push_decimal, push_str, string_of};
use vstd::prelude::*;

verus! {

/// A key of the terminal, as far as the navigator tells keys apart.
#[derive(Clone, Copy, Debug, PartialEq, Eq, Structural)]
pub enum Key {
    Up,
    Down,
    PageUp,
    PageDown,
    Left,
    Right,
    Esc,
    /// A key that gives a character.
    Char(char),
    /// Any other key.
    Other,
}

/// What the terminal reports.
#[derive(Clone, Copy, Debug, PartialEq, Eq, Structural)]
pub enum Event {
    /// A key was pressed.
    Key(Key),
    /// The terminal changed its size.
    Resize,
    /// Anything else.
    Other,
}

/// What the user can ask for.
#[derive(Clone, Copy, Debug, PartialEq, Eq, Structural)]
pub enum Command {
    ScrollUp,
    ScrollDown,
    PageUp,
    PageDown,
    NextResult,
    PreviousResult,
    OpenExternally,
    Quit,
}

/// Where the navigator stands in its cycle.
#[derive(Clone, Copy, Debug, PartialEq, Eq, Structural)]
pub enum Phase {
    /// The current result has to be drawn.
    Rendering,
    /// The current result is on the screen; the next event is awaited.
    AwaitingInput,
    /// The user asked to leave; the terminal has to be restored.
    Terminating,
}

/// What the caller has to do after an event.
#[derive(Clone, Copy, Debug, PartialEq, Eq, Structural)]
pub enum Effect {
    /// Nothing: go on waiting.
    Wait,
    /// Draw the result at the cursor, scrolled as far as the navigator says
    /// and its text allows.
    Draw,
    /// Scroll the view by so many lines, up if negative, and draw.
    ScrollLines(i32),
    /// Scroll the view by so many pages, up if negative, and draw.
    ScrollPages(i32),
    /// Fit the view to the new size of the terminal and draw.
    Resize,
    /// Open the page of the current result outside the terminal.
    Open,
    /// Restore the terminal and leave.
    Quit,
}

/// The state of a navigator as a mathematical value.
pub struct NavState {
    pub phase: Phase,
    /// The index of the result that is shown.
    pub cursor: nat,
    /// The number of lines of its text above the top of the screen.
    pub scroll: nat,
    /// The number of results.
    pub total: nat,
}

impl NavState {
    /// The cursor points at a result.
    pub open spec fn valid(self) -> bool {
        self.cursor < self.total
    }
}

/// What a key asks for, if anything.
pub open spec fn command_of(key: Key) -> Option<Command> {
    match key {
        Key::Up => Some(Command::ScrollUp),
        Key::Down => Some(Command::ScrollDown),
        Key::PageUp => Some(Command::PageUp),
        Key::PageDown => Some(Command::PageDown),
        Key::Right => Some(Command::NextResult),
        Key::Left => Some(Command::PreviousResult),
        Key::Esc => Some(Command::Quit),
        Key::Char(c) => if c == 'k' {
            Some(Command::ScrollUp)
        } else if c == 'j' {
            Some(Command::ScrollDown)
        } else if c == 'd' || c == 'l' {
            Some(Command::NextResult)
        } else if c == 'a' || c == 'h' {
            Some(Command::PreviousResult)
        } else if c == 'o' {
            Some(Command::OpenExternally)
        } else if c == 'c' || c == 'q' {
            Some(Command::Quit)
        } else {
            None
        },
        Key::Other => None,
    }
}

/// The state after a command, for a navigator that awaits input.
pub open spec fn after_command(state: NavState, command: Command) -> NavState {
    match command {
        Command::ScrollUp | Command::ScrollDown | Command::PageUp | Command::PageDown => NavState {
            phase: Phase::Rendering,
            ..state
        },
        Command::NextResult => if state.cursor + 1 < state.total {
            NavState { phase: Phase::Rendering, cursor: state.cursor + 1, ..state }
        } else {
            state
        },
        Command::PreviousResult => if state.cursor > 0 {
            NavState { phase: Phase::Rendering, cursor: (state.cursor - 1) as nat, ..state }
        } else {
            state
        },
        Command::OpenExternally => state,
        Command::Quit => NavState { phase: Phase::Terminating, ..state },
    }
}

/// What the caller has to do for a command, for a navigator that awaits input.
pub open spec fn effect_of_command(state: NavState, command: Command) -> Effect {
    match command {
        Command::ScrollUp => Effect::ScrollLines(-1i32),
        Command::ScrollDown => Effect::ScrollLines(1i32),
        Command::PageUp => Effect::ScrollPages(-1i32),
        Command::PageDown => Effect::ScrollPages(1i32),
        Command::NextResult => if state.cursor + 1 < state.total {
            Effect::Draw
        } else {
            Effect::Wait
        },
        Command::PreviousResult => if state.cursor > 0 {
            Effect::Draw
        } else {
            Effect::Wait
        },
        Command::OpenExternally => Effect::Open,
        Command::Quit => Effect::Quit,
    }
}

/// The state after an event. Only a navigator that awaits input reacts.
pub open spec fn after_event(state: NavState, event: Event) -> NavState {
    if state.phase != Phase::AwaitingInput {
        state
    } else {
        match event {
            Event::Key(key) => match command_of(key) {
                Some(command) => after_command(state, command),
                None => state,
            },
            Event::Resize => NavState { phase: Phase::Rendering, ..state },
            Event::Other => state,
        }
    }
}

/// What the caller has to do after an event.
pub open spec fn effect_of_event(state: NavState, event: Event) -> Effect {
    if state.phase != Phase::AwaitingInput {
        Effect::Wait
    } else {
        match event {
            Event::Key(key) => match command_of(key) {
                Some(command) => effect_of_command(state, command),
                None => Effect::Wait,
            },
            Event::Resize => Effect::Resize,
            Event::Other => Effect::Wait,
        }
    }
}

/// The state after the current result was drawn and the view reported its
/// scroll offset. Only a navigator that has to draw takes the report.
pub open spec fn after_drawing(state: NavState, scroll: nat) -> NavState {
    if state.phase == Phase::Rendering {
        NavState { phase: Phase::AwaitingInput, scroll: scroll, ..state }
    } else {
        state
    }
}

/// The keys and what they do, as shown below every result.
pub open spec fn legend() -> Seq<char> {
    "up/k down/j pgup pgdn: scroll | right/l/d: next | left/h/a: previous | o: open | q/c/esc: quit"@
}

/// The line below a result: which result it is, counted from one, of how many,
/// its score, and the legend.
pub open spec fn status_line(cursor: nat, total: nat, score: nat) -> Seq<char> {
    "result "@ + decimal(cursor + 1) + " of "@ + decimal(total) + " | score "@ + decimal(score)
        + " | "@ + legend()
}

/// What is shown for a result: its text, a line break, and the status line in
/// a fenced block of its own, so that it is not taken for markdown.
pub open spec fn display_text(content: Seq<char>, cursor: nat, total: nat, score: nat) -> Seq<
    char,
> {
    content + "\n"@ + "```\n"@ + status_line(cursor, total, score) + "\n```\n"@
}

/// The cursor always points at a result: no event moves it out of range, and
/// none changes the number of results.
pub proof fn lemma_cursor_stays_valid(state: NavState, event: Event)
    requires
        state.valid(),
    ensures
        after_event(state, event).valid(),
        after_event(state, event).total == state.total,
{
}

/// The cursor does not wrap around. A key for the next result, pressed at the
/// last result, changes nothing and asks for nothing, and so does a key for
/// the previous result at the first. Elsewhere these keys move the cursor by
/// one.
pub proof fn lemma_cursor_saturates(state: NavState, key: Key)
    requires
        state.valid(),
        state.phase == Phase::AwaitingInput,
    ensures
        command_of(key) == Some(Command::NextResult) && state.cursor + 1 == state.total ==> {
            &&& after_event(state, Event::Key(key)) == state
            &&& effect_of_event(state, Event::Key(key)) == Effect::Wait
        },
        command_of(key) == Some(Command::PreviousResult) && state.cursor == 0 ==> {
            &&& after_event(state, Event::Key(key)) == state
            &&& effect_of_event(state, Event::Key(key)) == Effect::Wait
        },
        command_of(key) == Some(Command::NextResult) && state.cursor + 1 < state.total
            ==> after_event(state, Event::Key(key)).cursor == state.cursor + 1,
        command_of(key) == Some(Command::PreviousResult) && state.cursor > 0 ==> after_event(
            state,
            Event::Key(key),
        ).cursor == state.cursor - 1,
{
}

/// No event moves the cursor by more than one.
pub proof fn lemma_cursor_moves_by_one(state: NavState, event: Event)
    ensures
        state.cursor - 1 <= after_event(state, event).cursor <= state.cursor + 1,
{
}

/// Neither a change of size nor opening a page moves the cursor or the scroll
/// offset.
pub proof fn lemma_resize_and_open_keep_place(state: NavState)
    ensures
        after_event(state, Event::Resize).cursor == state.cursor,
        after_event(state, Event::Resize).scroll == state.scroll,
        after_command(state, Command::OpenExternally) == state,
{
}

/// What a key asks for, if anything.
pub fn command_for(key: Key) -> (command: Option<Command>)
    ensures
        command == command_of(key),
{
    match key {
        Key::Up => Some(Command::ScrollUp),
        Key::Down => Some(Command::ScrollDown),
        Key::PageUp => Some(Command::PageUp),
        Key::PageDown => Some(Command::PageDown),
        Key::Right => Some(Command::NextResult),
        Key::Left => Some(Command::PreviousResult),
        Key::Esc => Some(Command::Quit),
        Key::Char(c) => {
            if c == 'k' {
                Some(Command::ScrollUp)
            } else if c == 'j' {
                Some(Command::ScrollDown)
            } else if c == 'd' || c == 'l' {
                Some(Command::NextResult)
            } else if c == 'a' || c == 'h' {
                Some(Command::PreviousResult)
            } else if c == 'o' {
                Some(Command::OpenExternally)
            } else if c == 'c' || c == 'q' {
                Some(Command::Quit)
            } else {
                None
            }
        },
        Key::Other => None,
    }
}

/// The line below a result.
pub fn status_text(cursor: usize, total: usize, score: u128) -> (line: Vec<char>)
    requires
        cursor < total,
    ensures
        line@ == status_line(cursor as nat, total as nat, score as nat),
{
    let mut line: Vec<char> = Vec::new();
    push_str(&mut line, "result ");
    push_decimal(&mut line, (cursor + 1) as u128);
    push_str(&mut line, " of ");
    push_decimal(&mut line, total as u128);
    push_str(&mut line, " | score ");
    push_decimal(&mut line, score);
    push_str(&mut line, " | ");
    push_str(
        &mut line,
        "up/k down/j pgup pgdn: scroll | right/l/d: next | left/h/a: previous | o: open | q/c/esc: quit",
    );
    line
}

/// What is shown for the result `section`, which is number `cursor`, counted
/// from zero, of `total`: its text and, in a fenced block, the status line.
pub fn render_text(section: &Section, cursor: usize, total: usize) -> (text: String)
    requires
        cursor < total,
    ensures
        text@ == display_text(
            section.content@,
            cursor as nat,
            total as nat,
            section.mentions as nat,
        ),
{
    let mut text = chars_of(section.content.as_str());
    push_str(&mut text, "\n");
    push_str(&mut text, "```\n");
    let status = status_text(cursor, total, section.mentions);
    push_all(&mut text, &status);
    push_str(&mut text, "\n```\n");
    string_of(&text)
}

/// The results of a search, which of them is shown, how far it is scrolled,
/// and what comes next. The results are never changed, and there is always at
/// least one.
#[derive(Debug)]
pub struct Navigator {
    phase: Phase,
    cursor: usize,
    scroll: usize,
    results: Vec<Section>,
}

impl View for Navigator {
    type V = NavState;

    closed spec fn view(&self) -> NavState {
        NavState {
            phase: self.phase,
            cursor: self.cursor as nat,
            scroll: self.scroll as nat,
            total: self.results.len() as nat,
        }
    }
}

impl Navigator {
    #[verifier::type_invariant]
    spec fn cursor_in_range(self) -> bool {
        self.cursor < self.results.len()
    }

    /// The results that the navigator shows.
    pub closed spec fn results(&self) -> Seq<SectionView> {
        section_views(self.results@)
    }

    /// A navigator over the given results, at the first of them and not
    /// scrolled, which has yet to draw. There is none over no results.
    pub fn new(results: Vec<Section>) -> (navigator: Option<Navigator>)
        ensures
            results.len() == 0 ==> navigator is None,
            results.len() > 0 ==> (navigator matches Some(n) && n.results() == section_views(
                results@,
            ) && n@ == (NavState {
                phase: Phase::Rendering,
                cursor: 0,
                scroll: 0,
                total: results.len() as nat,
            })),
    {
        if results.len() == 0 {
            None
        } else {
            Some(Navigator { phase: Phase::Rendering, cursor: 0, scroll: 0, results })
        }
    }

    /// Where the navigator stands in its cycle.
    pub fn phase(&self) -> (phase: Phase)
        ensures
            phase == self@.phase,
    {
        self.phase
    }

    /// The index of the result that is shown.
    pub fn cursor(&self) -> (cursor: usize)
        ensures
            cursor == self@.cursor,
            cursor < self@.total,
    {
        proof {
            use_type_invariant(self);
        }
        self.cursor
    }

    /// The scroll offset that the view last reported.
    pub fn scroll(&self) -> (scroll: usize)
        ensures
            scroll == self@.scroll,
    {
        self.scroll
    }

    /// The number of results.
    pub fn total(&self) -> (total: usize)
        ensures
            total == self@.total,
            total == self.results().len(),
            total > 0,
    {
        proof {
            use_type_invariant(self);
        }
        self.results.len()
    }

    /// The result that is shown.
    pub fn current(&self) -> (section: &Section)
        ensures
            self@.cursor < self.results().len(),
            section@ == self.results()[self@.cursor as int],
    {
        proof {
            use_type_invariant(self);
        }
        &self.results[self.cursor]
    }

    /// What is to be drawn: the text of the current result with its status
    /// line.
    pub fn display(&self) -> (text: String)
        ensures
            self@.cursor < self.results().len(),
            text@ == display_text(
                self.results()[self@.cursor as int].content,
                self@.cursor,
                self@.total,
                self.results()[self@.cursor as int].mentions,
            ),
    {
        proof {
            use_type_invariant(self);
        }
        render_text(&self.results[self.cursor], self.cursor, self.results.len())
    }

    /// What is to be opened outside the terminal for the current result.
    pub fn link_target(&self) -> (target: String)
        ensures
            self@.cursor < self.results().len(),
            target@ == open_target_of(self.results()[self@.cursor as int].link),
    {
        proof {
            use_type_invariant(self);
        }
        open_target(self.results[self.cursor].link.as_str())
    }

    /// Takes the report of a drawing: the navigator keeps the scroll offset that
    /// the view settled on and awaits input. A navigator that did not have to
    /// draw ignores the report.
    pub fn drawn(&mut self, scroll: usize)
        ensures
            final(self)@ == after_drawing(old(self)@, scroll as nat),
            final(self).results() == old(self).results(),
    {
        proof {
            use_type_invariant(&*self);
        }
        if self.phase == Phase::Rendering {
            self.phase = Phase::AwaitingInput;
            self.scroll = scroll;
        }
    }

    /// Takes an event and says what the caller has to do.
    ///
    /// Scrolling and a change of size are left to the view and lead to a new
    /// drawing. The next and the previous result lead to a new drawing unless
    /// the cursor is at the end it would move past; then nothing happens. To
    /// open the page changes nothing. To quit ends the cycle. Keys without a
    /// meaning, other events, and events that come while a drawing is due or
    /// after the end are ignored.
    pub fn handle(&mut self, event: Event) -> (effect: Effect)
        ensures
            final(self)@ == after_event(old(self)@, event),
            effect == effect_of_event(old(self)@, event),
            final(self)@.valid(),
            final(self).results() == old(self).results(),
    {
        proof {
            use_type_invariant(&*self);
        }
        if self.phase != Phase::AwaitingInput {
            return Effect::Wait;
        }
        match event {
            Event::Key(key) => match command_for(key) {
                Some(command) => self.obey(command),
                None => Effect::Wait,
            },
            Event::Resize => {
                self.phase = Phase::Rendering;
                Effect::Resize
            },
            Event::Other => Effect::Wait,
        }
    }

    /// Carries out a command of the user.
    fn obey(&mut self, command: Command) -> (effect: Effect)
        requires
            old(self)@.phase == Phase::AwaitingInput,
        ensures
            final(self)@ == after_command(old(self)@, command),
            effect == effect_of_command(old(self)@, command),
            final(self)@.valid(),
            final(self).results() == old(self).results(),
    {
        proof {
            use_type_invariant(&*self);
        }
        match command {
            Command::ScrollUp => {
                self.phase = Phase::Rendering;
                Effect::ScrollLines(-1)
            },
            Command::ScrollDown => {
                self.phase = Phase::Rendering;
                Effect::ScrollLines(1)
            },
            Command::PageUp => {
                self.phase = Phase::Rendering;
                Effect::ScrollPages(-1)
            },
            Command::PageDown => {
                self.phase = Phase::Rendering;
                Effect::ScrollPages(1)
            },
            Command::NextResult => {
                if self.cursor < self.results.len() - 1 {
                    self.phase = Phase::Rendering;
                    self.cursor = self.cursor + 1;
                    Effect::Draw
                } else {
                    Effect::Wait
                }
            },
            Command::PreviousResult => {
                if self.cursor > 0 {
                    self.phase = Phase::Rendering;
                    self.cursor = self.cursor - 1;
                    Effect::Draw
                } else {
                    Effect::Wait
                }
            },
            Command::OpenExternally => Effect::Open,
            Command::Quit => {
                self.phase = Phase::Terminating;
                Effect::Quit
            },
        }
    }
}

} // verus!
