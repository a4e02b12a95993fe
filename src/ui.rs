use vstd::prelude::*;
use crate::json::{fields_view, resolve_all, resolve_all_spec, Json, JsonEntity};
use crate::pointer::views;

verus! {

/// Where the application stands. It starts `Running`; `Quitting` is final.
#[derive(Debug, Clone, Copy, PartialEq, Eq, Structural)]
pub enum AppState {
    Stopped,
    Running,
    Quitting,
}

impl Default for AppState {
    fn default() -> (r: AppState)
        ensures
            r == AppState::Running,
    {
        AppState::Running
    }
}

/// An input event as the loop receives it.
#[derive(Debug, Clone, Copy, PartialEq, Eq, Structural)]
pub enum AppEvent {
    Error,
    Tick,
    Key(char),
    OtherKey,
}

/// What the loop does next.
#[derive(Debug, Clone, Copy, PartialEq, Eq, Structural)]
pub enum Message {
    UpdateSource,
    Quit,
    Tick,
}

/// The key that quits.
pub const QUIT_KEY: char = 'q';

/// Milliseconds from `last` to `now`; none where the clock reads earlier.
pub open spec fn elapsed(last: u64, now: u64) -> nat {
    if now >= last {
        (now - last) as nat
    } else {
        0
    }
}

/// The message for one loop iteration: a refresh once `interval` has
/// passed since the last one, whatever the input; else `Quit` for the quit
/// key and `Tick` for anything else.
pub open spec fn next_message(last: u64, event: AppEvent, now: u64, interval: u64) -> Message {
    if elapsed(last, now) >= interval {
        Message::UpdateSource
    } else if event == AppEvent::Key(QUIT_KEY) {
        Message::Quit
    } else {
        Message::Tick
    }
}

/// The state of the live table: the fields on show, how many refreshes have
/// been made, when the last one was (in milliseconds from the start), and
/// whether the loop goes on.
pub struct App {
    pub columns: Vec<JsonEntity>,
    pub state: AppState,
    pub update_source_c: usize,
    pub last_updated: u64,
}

impl App {
    /// A running application showing `columns`, last refreshed at `now`.
    pub fn new(columns: Vec<JsonEntity>, now: u64) -> (r: App)
        ensures
            r.columns == columns,
            r.state == AppState::Running,
            r.update_source_c == 0,
            r.last_updated == now,
    {
        App { columns, state: AppState::default(), update_source_c: 0, last_updated: now }
    }

    /// The message for `event` at time `now`, where a refresh is due every
    /// `interval` milliseconds. A due refresh comes before any key.
    pub fn handle_event(&self, event: AppEvent, now: u64, interval: u64) -> (m: Message)
        ensures
            m == next_message(self.last_updated, event, now, interval),
    {
        let elapsed: u64 = if now >= self.last_updated {
            now - self.last_updated
        } else {
            0
        };
        if elapsed >= interval {
            return Message::UpdateSource;
        }
        match event {
            AppEvent::Key(c) => if c == QUIT_KEY {
                Message::Quit
            } else {
                Message::Tick
            },
            _ => Message::Tick,
        }
    }

    /// Applies `message` at time `now`: `Quit` ends the loop, `Tick` changes
    /// nothing, `UpdateSource` counts a refresh made at `now`.
    pub fn update(&mut self, message: Message, now: u64)
        ensures
            final(self).columns == old(self).columns,
            message == Message::Quit ==> final(self).state == AppState::Quitting,
            message != Message::Quit ==> final(self).state == old(self).state,
            message == Message::UpdateSource ==> final(self).last_updated == now
                && final(self).update_source_c == if old(self).update_source_c < usize::MAX {
                    old(self).update_source_c + 1
                } else {
                    old(self).update_source_c as int
                },
            message != Message::UpdateSource ==> final(self).last_updated == old(self).last_updated
                && final(self).update_source_c == old(self).update_source_c,
    {
        match message {
            Message::Quit => self.stop(),
            Message::Tick => self.tick(),
            Message::UpdateSource => {
                self.last_updated = now;
                if self.update_source_c < usize::MAX {
                    self.update_source_c = self.update_source_c + 1;
                }
            },
        }
    }

    /// Shows the fields that `pointers` yield in `doc`, in place of the old
    /// ones, and counts a refresh made at `now`.
    pub fn refresh(&mut self, doc: &Json, pointers: &Vec<String>, now: u64)
        ensures
            fields_view(final(self).columns@) == resolve_all_spec(*doc, views(pointers@)),
            final(self).state == old(self).state,
            final(self).last_updated == now,
            final(self).update_source_c == if old(self).update_source_c < usize::MAX {
                old(self).update_source_c + 1
            } else {
                old(self).update_source_c as int
            },
    {
        self.columns = resolve_all(doc, pointers);
        self.update(Message::UpdateSource, now);
    }

    fn tick(&mut self)
        ensures
            *final(self) == *old(self),
    {
    }

    fn stop(&mut self)
        ensures
            final(self).state == AppState::Quitting,
            final(self).columns == old(self).columns,
            final(self).update_source_c == old(self).update_source_c,
            final(self).last_updated == old(self).last_updated,
    {
        self.state = AppState::Quitting;
    }
}

/// A refresh that is due wins over a quit key pressed in the same iteration.
pub proof fn lemma_refresh_before_quit(last: u64, now: u64, interval: u64)
    requires
        elapsed(last, now) >= interval,
    ensures
        next_message(last, AppEvent::Key(QUIT_KEY), now, interval) == Message::UpdateSource,
{
}

} // verus!
