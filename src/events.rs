//! Decisions of the event loop: start-up configuration, input throttling,
//! freezing the display, and mapping keys to actions.
use vstd::prelude::*;

verus! {

/// The smallest refresh interval accepted, in milliseconds.
pub const MIN_REFRESH_RATE_MS: u128 = 250;

/// The shortest gap, in milliseconds, between two forwarded input events of
/// one class.
pub const DEBOUNCE_MS: u64 = 20;

#[derive(Clone, Copy, Debug, PartialEq, Eq, Structural)]
pub enum ConfigError {
    RateTooLow,
    RateTooHigh,
}

/// Checks a refresh interval given at start-up.
pub fn validate_refresh_rate(rate_ms: u128) -> (r: Result<u64, ConfigError>)
    ensures
        rate_ms < MIN_REFRESH_RATE_MS ==> r == Err::<u64, ConfigError>(ConfigError::RateTooLow),
        rate_ms > u64::MAX ==> r == Err::<u64, ConfigError>(ConfigError::RateTooHigh),
        MIN_REFRESH_RATE_MS <= rate_ms <= u64::MAX ==> r == Ok::<u64, ConfigError>(rate_ms as u64),
{
    if rate_ms < MIN_REFRESH_RATE_MS {
        Err(ConfigError::RateTooLow)
    } else if rate_ms > u64::MAX as u128 {
        Err(ConfigError::RateTooHigh)
    } else {
        Ok(rate_ms as u64)
    }
}

#[derive(Clone, Copy, Debug, PartialEq, Eq, Structural)]
pub enum InputClass {
    Key,
    Pointer,
}

/// The time, in milliseconds, at which an event of each class was last
/// forwarded.
#[derive(Clone, Copy, Debug, PartialEq, Eq, Structural)]
pub struct InputThrottle {
    pub last_key_ms: u64,
    pub last_pointer_ms: u64,
}

pub open spec fn last_of(t: InputThrottle, class: InputClass) -> u64 {
    match class {
        InputClass::Key => t.last_key_ms,
        InputClass::Pointer => t.last_pointer_ms,
    }
}

/// Whether an event at `now` is forwarded after one forwarded at `last`; a
/// clock that went back counts as no time elapsed.
pub open spec fn forwards(last: u64, now: u64) -> bool {
    now >= last && now - last >= DEBOUNCE_MS
}

/// The throttle after an event of `class` at `now`, and whether the event is
/// forwarded.
pub open spec fn throttle_step(t: InputThrottle, class: InputClass, now: u64) -> (InputThrottle, bool) {
    if forwards(last_of(t, class), now) {
        (
            match class {
                InputClass::Key => InputThrottle { last_key_ms: now, ..t },
                InputClass::Pointer => InputThrottle { last_pointer_ms: now, ..t },
            },
            true,
        )
    } else {
        (t, false)
    }
}

impl InputThrottle {
    /// A throttle whose timers both start at `now_ms`.
    pub fn new(now_ms: u64) -> (r: Self)
        ensures
            r.last_key_ms == now_ms,
            r.last_pointer_ms == now_ms,
    {
        InputThrottle { last_key_ms: now_ms, last_pointer_ms: now_ms }
    }

    /// Decides whether an event of `class` at `now_ms` is forwarded, and
    /// restarts that class's timer when it is.
    pub fn accept(&mut self, class: InputClass, now_ms: u64) -> (r: bool)
        ensures
            (*final(self), r) == throttle_step(*old(self), class, now_ms),
    {
        let last = match class {
            InputClass::Key => self.last_key_ms,
            InputClass::Pointer => self.last_pointer_ms,
        };
        if now_ms >= last && now_ms - last >= DEBOUNCE_MS {
            match class {
                InputClass::Key => self.last_key_ms = now_ms,
                InputClass::Pointer => self.last_pointer_ms = now_ms,
            }
            true
        } else {
            false
        }
    }
}

/// Two events of one class less than `DEBOUNCE_MS` apart are not both
/// forwarded, whatever the throttle's state before them.
pub proof fn lemma_debounce_one_per_window(t: InputThrottle, class: InputClass, t1: u64, t2: u64)
    requires
        t1 <= t2 < t1 + DEBOUNCE_MS,
    ensures
        !(throttle_step(t, class, t1).1 && throttle_step(throttle_step(t, class, t1).0, class, t2).1),
{
}

/// Events of one class do not hold back events of the other.
pub proof fn lemma_debounce_classes_independent(t: InputThrottle, class: InputClass, other: InputClass, now: u64)
    requires
        class != other,
    ensures
        last_of(throttle_step(t, class, now).0, other) == last_of(t, other),
{
}

/// The snapshot on display, and whether new snapshots are held back.
pub struct DisplayState<D> {
    pub is_frozen: bool,
    pub data: D,
}

/// The snapshot on display after the updates `ups` arrive in turn.
pub open spec fn after_updates<D>(data: D, frozen: bool, ups: Seq<D>) -> D
    decreases ups.len(),
{
    if ups.len() == 0 {
        data
    } else if frozen {
        after_updates(data, frozen, ups.drop_first())
    } else {
        after_updates(ups[0], frozen, ups.drop_first())
    }
}

impl<D> DisplayState<D> {
    pub fn new(data: D) -> (r: Self)
        ensures
            !r.is_frozen,
            r.data == data,
    {
        DisplayState { is_frozen: false, data }
    }

    /// Applies a new snapshot unless the display is frozen; says whether it
    /// was applied.
    pub fn on_update(&mut self, data: D) -> (applied: bool)
        ensures
            applied == !old(self).is_frozen,
            final(self).is_frozen == old(self).is_frozen,
            final(self).data == if applied { data } else { old(self).data },
    {
        if self.is_frozen {
            false
        } else {
            self.data = data;
            true
        }
    }

    /// Turns freezing on or off; says whether the display was just unfrozen,
    /// which asks the harvester for a reset.
    pub fn toggle_freeze(&mut self) -> (unfrozen: bool)
        ensures
            final(self).is_frozen == !old(self).is_frozen,
            final(self).data == old(self).data,
            unfrozen == old(self).is_frozen,
    {
        self.is_frozen = !self.is_frozen;
        !self.is_frozen
    }
}

/// While frozen, no number of updates changes the snapshot on display.
pub proof fn lemma_frozen_keeps_snapshot<D>(data: D, ups: Seq<D>)
    ensures
        after_updates(data, true, ups) == data,
    decreases ups.len(),
{
    if ups.len() > 0 {
        lemma_frozen_keeps_snapshot(data, ups.drop_first());
    }
}

/// Unfrozen, the snapshot on display is the last update received.
pub proof fn lemma_unfrozen_shows_last<D>(data: D, ups: Seq<D>)
    requires
        ups.len() > 0,
    ensures
        after_updates(data, false, ups) == ups.last(),
    decreases ups.len(),
{
    if ups.len() > 1 {
        lemma_unfrozen_shows_last(ups[0], ups.drop_first());
        assert(ups.drop_first().last() == ups.last());
    } else {
        assert(ups.drop_first().len() == 0);
        assert(after_updates(ups[0], false, ups.drop_first()) == ups[0]);
    }
}

#[derive(Clone, Copy, Debug, PartialEq, Eq, Structural)]
pub enum Key {
    Char(char),
    End,
    Home,
    Up,
    Down,
    Left,
    Right,
    Esc,
    Enter,
    Tab,
    Backspace,
    Other,
}

#[derive(Clone, Copy, Debug, PartialEq, Eq, Structural)]
pub enum Modifiers {
    Empty,
    Control,
    Other,
}

#[derive(Clone, Copy, Debug, PartialEq, Eq, Structural)]
pub enum Action {
    Quit,
    SkipToLast,
    SkipToFirst,
    Up,
    Down,
    Left,
    Right,
    CharInput(char),
    Escape,
    Enter,
    Tab,
    Backspace,
    EnableSearch,
    MoveLeft,
    MoveRight,
    MoveUp,
    MoveDown,
    SearchWithPid,
    SearchWithName,
    Reset,
    ToggleSimpleSearch,
    CursorToStart,
    CursorToEnd,
    Ignore,
}

/// The action for a key press: plain keys navigate or type, with `q`
/// quitting unless a search is being typed; control keys have their own set.
pub open spec fn key_action(key: Key, mods: Modifiers, in_search: bool) -> Action {
    match mods {
        Modifiers::Empty => match key {
            Key::Char(c) => if c == 'q' && !in_search { Action::Quit } else { Action::CharInput(c) },
            Key::End => Action::SkipToLast,
            Key::Home => Action::SkipToFirst,
            Key::Up => Action::Up,
            Key::Down => Action::Down,
            Key::Left => Action::Left,
            Key::Right => Action::Right,
            Key::Esc => Action::Escape,
            Key::Enter => Action::Enter,
            Key::Tab => Action::Tab,
            Key::Backspace => Action::Backspace,
            Key::Other => Action::Ignore,
        },
        Modifiers::Control => match key {
            Key::Char('c') => Action::Quit,
            Key::Char('f') => Action::EnableSearch,
            Key::Left | Key::Char('h') => Action::MoveLeft,
            Key::Right | Key::Char('l') => Action::MoveRight,
            Key::Up | Key::Char('k') => Action::MoveUp,
            Key::Down | Key::Char('j') => Action::MoveDown,
            Key::Char('p') => Action::SearchWithPid,
            Key::Char('n') => Action::SearchWithName,
            Key::Char('r') => Action::Reset,
            Key::Char('s') => Action::ToggleSimpleSearch,
            Key::Char('a') => Action::CursorToStart,
            Key::Char('e') => Action::CursorToEnd,
            _ => Action::Ignore,
        },
        Modifiers::Other => Action::Ignore,
    }
}

/// Maps a key press to the action it asks for.
pub fn dispatch_key(key: Key, mods: Modifiers, in_search: bool) -> (r: Action)
    ensures
        r == key_action(key, mods, in_search),
{
    match mods {
        Modifiers::Empty => match key {
            Key::Char(c) => if c == 'q' && !in_search { Action::Quit } else { Action::CharInput(c) },
            Key::End => Action::SkipToLast,
            Key::Home => Action::SkipToFirst,
            Key::Up => Action::Up,
            Key::Down => Action::Down,
            Key::Left => Action::Left,
            Key::Right => Action::Right,
            Key::Esc => Action::Escape,
            Key::Enter => Action::Enter,
            Key::Tab => Action::Tab,
            Key::Backspace => Action::Backspace,
            Key::Other => Action::Ignore,
        },
        Modifiers::Control => match key {
            Key::Char('c') => Action::Quit,
            Key::Char('f') => Action::EnableSearch,
            Key::Left | Key::Char('h') => Action::MoveLeft,
            Key::Right | Key::Char('l') => Action::MoveRight,
            Key::Up | Key::Char('k') => Action::MoveUp,
            Key::Down | Key::Char('j') => Action::MoveDown,
            Key::Char('p') => Action::SearchWithPid,
            Key::Char('n') => Action::SearchWithName,
            Key::Char('r') => Action::Reset,
            Key::Char('s') => Action::ToggleSimpleSearch,
            Key::Char('a') => Action::CursorToStart,
            Key::Char('e') => Action::CursorToEnd,
            _ => Action::Ignore,
        },
        Modifiers::Other => Action::Ignore,
    }
}

/// The scroll position after a scroll up (`up`) or down.
pub fn scroll(position: u64, up: bool) -> (r: u64)
    ensures
        up ==> r as int == if position > 0 { position - 1 } else { 0 },
        !up ==> r as int == if position < u64::MAX { position + 1 } else { position as int },
{
    if up {
        if position > 0 { position - 1 } else { 0 }
    } else if position < u64::MAX {
        position + 1
    } else {
        position
    }
}

} // verus!
