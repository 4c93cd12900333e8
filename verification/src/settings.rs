//! Persisted settings: when they are written.
//!
//! The window pushes a configuration on every change, and settings are not worth
//! a disk write each time. So a change is written a moment later, and only if no
//! newer one has come in the meantime.

use crate::recorder::{ConfigView, RecordingConfig};
use vstd::prelude::*;

verus! {

/// The moment between a change and its writing, in milliseconds.
pub const DEBOUNCE_MS: u64 = 600;

/// Settings that wait to be written.
pub struct PendingSettings {
    generation: u64,
    pending: Option<RecordingConfig>,
}

#[verifier::ext_equal]
pub struct PendingView {
    /// How many changes there have been.
    pub generation: u64,
    pub pending: Option<ConfigView>,
}

impl View for PendingSettings {
    type V = PendingView;

    closed spec fn view(&self) -> PendingView {
        PendingView {
            generation: self.generation,
            pending: match self.pending {
                Some(cfg) => Some(cfg@),
                None => None,
            },
        }
    }
}

impl PendingView {
    pub open spec fn changed(self, cfg: ConfigView) -> PendingView {
        PendingView { generation: (self.generation + 1) as u64, pending: Some(cfg) }
    }

    /// What the writer that was set off by the change number `mine` writes.
    pub open spec fn due(self, mine: u64) -> Option<ConfigView> {
        if self.generation == mine {
            self.pending
        } else {
            None
        }
    }
}

impl PendingSettings {
    pub fn new() -> (r: PendingSettings)
        ensures
            r@ == (PendingView { generation: 0, pending: None }),
    {
        PendingSettings { generation: 0, pending: None }
    }

    /// Takes in a change. Returns its number, with which a writer asks for what is
    /// [`due`](PendingSettings::due) a moment later.
    pub fn save_debounced(&mut self, cfg: RecordingConfig) -> (mine: u64)
        requires
            old(self)@.generation < u64::MAX,
        ensures
            final(self)@ == old(self)@.changed(cfg@),
            mine == final(self)@.generation,
    {
        self.pending = Some(cfg);
        self.generation = self.generation + 1;
        self.generation
    }

    /// How many changes there have been.
    pub fn changes(&self) -> (r: u64)
        ensures
            r == self@.generation,
    {
        self.generation
    }

    /// The configuration that the writer of change `mine` has to write, if it was
    /// not superseded by a newer change.
    pub fn due(&self, mine: u64) -> (r: Option<RecordingConfig>)
        ensures
            match r {
                Some(cfg) => self@.due(mine) == Some(cfg@),
                None => self@.due(mine) is None,
            },
    {
        if self.generation != mine {
            return None;
        }
        match &self.pending {
            Some(cfg) => Some(cfg.clone()),
            None => None,
        }
    }
}

/// Of two changes in a burst only the newer one is written.
pub proof fn only_the_newest_change_is_written(p: PendingView, first: ConfigView, second: ConfigView)
    requires
        p.generation < u64::MAX - 1,
    ensures
        p.changed(first).due(p.changed(first).generation) == Some(first),
        p.changed(first).changed(second).due(p.changed(first).generation) is None,
        p.changed(first).changed(second).due(p.changed(first).changed(second).generation) == Some(
            second,
        ),
        p.changed(first).generation > p.generation,
        DEBOUNCE_MS == 600,
{
}

} // verus!
