//! The key dispatcher: what a key, the outcome of an action and a fresh
//! listing each do to the application, and what they ask of the caller.
//!
//! The dispatcher never touches the directory itself. A key that acts on a
//! unit makes it hand out [`Effect::Perform`]; the caller attempts the action
//! and reports the outcome, is handed [`Effect::Rebuild`], queries the
//! directory and reports the listing. Only then are keys handled again.

use vstd::prelude::*;
use crate::app::{App, AppView, Phase};
use crate::directory::{listed, Action, DirectoryError, Listing};
use crate::list::canonical;
use crate::list_lemmas::lemma_canonical;
use crate::selection::{lemma_reconciled, reconciled};
use crate::service::ServiceRecordView;

verus! {

/// No modifier key.
pub const NONE: u8 = 0b0000_0000;

/// The shift key.
pub const SHIFT: u8 = 0b0000_0001;

/// The control key.
pub const CONTROL: u8 = 0b0000_0010;

/// The alt key.
pub const ALT: u8 = 0b0000_0100;

/// The super key.
pub const SUPER: u8 = 0b0000_1000;

/// The hyper key.
pub const HYPER: u8 = 0b0001_0000;

/// The meta key.
pub const META: u8 = 0b0010_0000;

/// The key that was pressed, as far as the dispatcher tells keys apart.
#[derive(Clone, Copy, Debug, PartialEq, Eq, Structural)]
pub enum KeyCode {
    /// The escape key.
    Esc,
    /// The up arrow.
    Up,
    /// The down arrow.
    Down,
    /// A character key; upper and lower case are different keys.
    Char(char),
    /// Any other key.
    Other,
}

/// The modifier keys held down with a key: the sum of their bits.
#[derive(Clone, Copy, Debug, PartialEq, Eq, Structural)]
pub struct KeyModifiers {
    pub bits: u8,
}

/// One key press.
#[derive(Clone, Copy, Debug, PartialEq, Eq, Structural)]
pub struct KeyEvent {
    pub code: KeyCode,
    pub modifiers: KeyModifiers,
}

impl KeyEvent {
    /// A key press with the given modifier bits.
    pub fn new(code: KeyCode, modifiers: u8) -> (key: Self)
        ensures
            key == (KeyEvent { code, modifiers: KeyModifiers { bits: modifiers } }),
    {
        KeyEvent { code, modifiers: KeyModifiers { bits: modifiers } }
    }
}

/// What a key asks for.
#[derive(Clone, Copy, Debug, PartialEq, Eq, Structural)]
pub enum Command {
    /// Stop the application.
    Quit,
    /// Move the selection one row down.
    MoveDown,
    /// Move the selection one row up.
    MoveUp,
    /// Act on the selected unit.
    Act(Action),
    /// Nothing.
    Ignore,
}

/// What arrives at the dispatcher.
pub enum Event {
    /// A key was pressed.
    Key(KeyEvent),
    /// The action asked for was attempted, with this outcome.
    ActionDone(Result<(), DirectoryError>),
    /// The directory was queried, with this answer.
    Listed(Listing),
}

/// What the dispatcher asks of its caller.
#[derive(Debug, PartialEq, Eq)]
pub enum Effect {
    /// Nothing.
    Nothing,
    /// Attempt `action` on the unit named `unit`, once, and report the outcome.
    Perform { action: Action, unit: String },
    /// Query the directory for all units and report the answer.
    Rebuild,
}

/// The mathematical value of an [`Effect`].
pub enum EffectView {
    Nothing,
    Perform { action: Action, unit: Seq<char> },
    Rebuild,
}

impl View for Effect {
    type V = EffectView;

    open spec fn view(&self) -> EffectView {
        match self {
            Effect::Nothing => EffectView::Nothing,
            Effect::Perform { action, unit } => EffectView::Perform {
                action: *action,
                unit: unit@,
            },
            Effect::Rebuild => EffectView::Rebuild,
        }
    }
}

/// The command that a key stands for. `Esc` and `q` quit, and so does `c` or
/// `C` with the control key and no other modifier; `j` and the down arrow move
/// down, `k` and the up arrow move up; `s`, `p`, `r`, `e` and `d` start, stop,
/// restart, enable and disable. But for `c`, modifiers are not looked at.
pub open spec fn command_of(key: KeyEvent) -> Command {
    match key.code {
        KeyCode::Esc => Command::Quit,
        KeyCode::Down => Command::MoveDown,
        KeyCode::Up => Command::MoveUp,
        KeyCode::Char(c) => if c == 'q' {
            Command::Quit
        } else if c == 'j' {
            Command::MoveDown
        } else if c == 'k' {
            Command::MoveUp
        } else if c == 's' {
            Command::Act(Action::Start)
        } else if c == 'p' {
            Command::Act(Action::Stop)
        } else if c == 'r' {
            Command::Act(Action::Restart)
        } else if c == 'e' {
            Command::Act(Action::Enable)
        } else if c == 'd' {
            Command::Act(Action::Disable)
        } else if (c == 'c' || c == 'C') && key.modifiers.bits == CONTROL {
            Command::Quit
        } else {
            Command::Ignore
        },
        KeyCode::Other => Command::Ignore,
    }
}

/// What a key does to a state. A stopped application takes no key. A running
/// one always takes a key that quits; while an action or a rebuild is under
/// way it takes no other. A key that acts on a unit needs a selected record:
/// it leaves list and selection alone and asks for the action on that record.
pub open spec fn on_key(s: AppView, key: KeyEvent) -> (AppView, EffectView) {
    if !s.running {
        (s, EffectView::Nothing)
    } else {
        match command_of(key) {
            Command::Quit => (s.quit(), EffectView::Nothing),
            Command::MoveDown if s.phase == Phase::Idle => (s.next(), EffectView::Nothing),
            Command::MoveUp if s.phase == Phase::Idle => (s.previous(), EffectView::Nothing),
            Command::Act(action) if s.phase == Phase::Idle => match s.current() {
                Some(record) => (
                    s.in_phase(Phase::Acting),
                    EffectView::Perform { action, unit: record.name },
                ),
                None => (s, EffectView::Nothing),
            },
            _ => (s, EffectView::Nothing),
        }
    }
}

/// What the outcome of an action does to a state: whether the action
/// succeeded or failed, a running application that awaited it asks for the
/// rebuild. Otherwise nothing happens.
pub open spec fn on_action_done(s: AppView, outcome: Result<(), DirectoryError>) -> (
    AppView,
    EffectView,
) {
    if s.running && s.phase == Phase::Acting {
        (s.in_phase(Phase::Rebuilding), EffectView::Rebuild)
    } else {
        (s, EffectView::Nothing)
    }
}

/// What a listing does to a state: a running application that awaited it
/// rebuilds its list from the listed records and handles keys again.
/// Otherwise nothing happens.
pub open spec fn on_listed(s: AppView, records: Seq<ServiceRecordView>) -> (AppView, EffectView) {
    if s.running && s.phase == Phase::Rebuilding {
        (s.rebuilt(records).in_phase(Phase::Idle), EffectView::Nothing)
    } else {
        (s, EffectView::Nothing)
    }
}

/// What an event does to a state, and what it asks of the caller.
pub open spec fn step(s: AppView, event: Event) -> (AppView, EffectView) {
    match event {
        Event::Key(key) => on_key(s, key),
        Event::ActionDone(outcome) => on_action_done(s, outcome),
        Event::Listed(listing) => on_listed(s, listed(listing)),
    }
}

/// Tells which command a key stands for.
pub fn classify(key: &KeyEvent) -> (command: Command)
    ensures
        command == command_of(*key),
{
    match key.code {
        KeyCode::Esc => Command::Quit,
        KeyCode::Down => Command::MoveDown,
        KeyCode::Up => Command::MoveUp,
        KeyCode::Char(c) => {
            if c == 'q' {
                Command::Quit
            } else if c == 'j' {
                Command::MoveDown
            } else if c == 'k' {
                Command::MoveUp
            } else if c == 's' {
                Command::Act(Action::Start)
            } else if c == 'p' {
                Command::Act(Action::Stop)
            } else if c == 'r' {
                Command::Act(Action::Restart)
            } else if c == 'e' {
                Command::Act(Action::Enable)
            } else if c == 'd' {
                Command::Act(Action::Disable)
            } else if (c == 'c' || c == 'C') && key.modifiers.bits == CONTROL {
                Command::Quit
            } else {
                Command::Ignore
            }
        },
        KeyCode::Other => Command::Ignore,
    }
}

/// Handles the key events and updates the state of [`App`].
pub fn handle_key_events(key_event: KeyEvent, app: &mut App) -> (effect: Effect)
    ensures
        (final(app)@, effect@) == on_key(old(app)@, key_event),
        final(app)@.wf(),
{
    proof {
        use_type_invariant(&*app);
    }
    if !app.running() {
        return Effect::Nothing;
    }
    let idle = app.phase() == Phase::Idle;
    match classify(&key_event) {
        Command::Quit => {
            app.quit();
            Effect::Nothing
        },
        Command::MoveDown => {
            if idle {
                app.next();
            }
            Effect::Nothing
        },
        Command::MoveUp => {
            if idle {
                app.previous();
            }
            Effect::Nothing
        },
        Command::Act(action) => {
            let unit = match app.current() {
                Some(record) => Some(record.name.clone()),
                None => None,
            };
            match unit {
                Some(unit) => {
                    if idle {
                        app.enter(Phase::Acting);
                        Effect::Perform { action, unit }
                    } else {
                        Effect::Nothing
                    }
                },
                None => Effect::Nothing,
            }
        },
        Command::Ignore => Effect::Nothing,
    }
}

/// Takes the outcome of the action that was asked for. The outcome does not
/// matter: the rebuild is asked for either way.
pub fn handle_action_done(outcome: Result<(), DirectoryError>, app: &mut App) -> (effect: Effect)
    ensures
        (final(app)@, effect@) == on_action_done(old(app)@, outcome),
        final(app)@.wf(),
{
    proof {
        use_type_invariant(&*app);
    }
    if app.running() && app.phase() == Phase::Acting {
        app.enter(Phase::Rebuilding);
        Effect::Rebuild
    } else {
        Effect::Nothing
    }
}

/// Takes the listing that was asked for and rebuilds the list from it.
pub fn handle_listed(listing: Listing, app: &mut App) -> (effect: Effect)
    ensures
        (final(app)@, effect@) == on_listed(old(app)@, listed(listing)),
        final(app)@.wf(),
{
    proof {
        use_type_invariant(&*app);
    }
    if app.running() && app.phase() == Phase::Rebuilding {
        app.rebuild(listing);
        app.enter(Phase::Idle);
    }
    Effect::Nothing
}

/// Handles one event and updates the state of [`App`].
pub fn handle_event(event: Event, app: &mut App) -> (effect: Effect)
    ensures
        (final(app)@, effect@) == step(old(app)@, event),
        final(app)@.wf(),
{
    match event {
        Event::Key(key) => handle_key_events(key, app),
        Event::ActionDone(outcome) => handle_action_done(outcome, app),
        Event::Listed(listing) => handle_listed(listing, app),
    }
}

/// Every event leaves a well-formed state well formed.
pub proof fn lemma_step_keeps_wf(s: AppView, event: Event)
    requires
        s.wf(),
    ensures
        step(s, event).0.wf(),
{
    if let Event::Listed(listing) = event {
        lemma_canonical(listed(listing));
        lemma_reconciled(s.selected, canonical(listed(listing)).len());
    }
}

/// Once the application has stopped, no event changes its state or asks
/// anything of the caller, so it stays stopped for good.
pub proof fn lemma_quit_is_final(s: AppView, event: Event)
    requires
        !s.running,
    ensures
        step(s, event) == (s, EffectView::Nothing),
{
}

/// A key that quits stops a running application whatever it is waiting for,
/// and changes nothing else.
pub proof fn lemma_quit_key(s: AppView, key: KeyEvent)
    requires
        s.running,
        command_of(key) == Command::Quit,
    ensures
        on_key(s, key) == (s.quit(), EffectView::Nothing),
        !on_key(s, key).0.running,
{
}

/// A key that acts on a unit, pressed while a record is selected and nothing
/// is under way, asks for that action on the selected record and changes
/// neither list nor selection. The outcome of the action, success or failure,
/// is answered by the request to rebuild, and the listing that follows
/// replaces the list by the canonical list of its records, fits the selection
/// to it and lets keys be handled again.
pub proof fn lemma_action_then_rebuild(
    s: AppView,
    key: KeyEvent,
    action: Action,
    outcome: Result<(), DirectoryError>,
    listing: Listing,
)
    requires
        s.wf(),
        s.running,
        s.phase == Phase::Idle,
        s.services.len() > 0,
        command_of(key) == Command::Act(action),
    ensures
        ({
            let (acting, asked) = step(s, Event::Key(key));
            let (rebuilding, then_asked) = step(acting, Event::ActionDone(outcome));
            let (done, last_asked) = step(rebuilding, Event::Listed(listing));
            &&& s.selected is Some
            &&& asked == (EffectView::Perform {
                action,
                unit: s.services[s.selected->0 as int].name,
            })
            &&& acting == s.in_phase(Phase::Acting)
            &&& then_asked == EffectView::Rebuild
            &&& rebuilding == s.in_phase(Phase::Rebuilding)
            &&& last_asked == EffectView::Nothing
            &&& done.phase == Phase::Idle
            &&& done.running
            &&& done.services == canonical(listed(listing))
            &&& done.selected == reconciled(s.selected, canonical(listed(listing)).len())
            &&& done.wf()
        }),
{
    lemma_canonical(listed(listing));
    lemma_reconciled(s.selected, canonical(listed(listing)).len());
}

/// While an action or a rebuild is under way, no key asks for another: an
/// action is asked for only by a key, and a rebuild only by the outcome of
/// the action that is awaited.
pub proof fn lemma_one_action_in_flight(s: AppView, event: Event)
    ensures
        step(s, event).1 is Perform ==> event is Key && s.phase == Phase::Idle && step(
            s,
            event,
        ).0.phase == Phase::Acting,
        step(s, event).1 is Rebuild ==> event is ActionDone && s.phase == Phase::Acting && step(
            s,
            event,
        ).0.phase == Phase::Rebuilding,
        s.phase != Phase::Idle && event is Key ==> step(s, event).1 is Nothing,
{
}

/// With an empty list, a key that does not quit changes nothing and asks
/// nothing of the directory.
pub proof fn lemma_empty_list_ignores_keys(s: AppView, key: KeyEvent)
    requires
        s.wf(),
        s.services.len() == 0,
        command_of(key) != Command::Quit,
    ensures
        on_key(s, key) == (s, EffectView::Nothing),
{
}

/// A key never changes the list, and only the keys that move the selection
/// change the selection.
pub proof fn lemma_keys_leave_list(s: AppView, key: KeyEvent)
    ensures
        on_key(s, key).0.services == s.services,
        command_of(key) != Command::MoveDown && command_of(key) != Command::MoveUp ==> on_key(
            s,
            key,
        ).0.selected == s.selected,
{
}

} // verus!
