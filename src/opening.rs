//! Opening a split file: removing continuation volumes for truncation,
//! then opening volume 1 and each further volume that exists.
//!
//! As with the controller, no I/O happens here: the caller asks for the
//! next action, performs it, and reports what it found.
use vstd::prelude::*;
use crate::options::{OpenOptions, VolumeFlags, volume_flags_spec};

verus! {

/// What removing one continuation volume's file gave.
#[derive(Clone, Copy, Debug, PartialEq, Eq, Structural)]
pub enum RemoveOutcome {
    Removed,
    NotFound,
    Failed,
}

/// The next action of truncation at open.
#[derive(Clone, Copy, Debug, PartialEq, Eq, Structural)]
pub enum TruncateAction {
    /// Remove the file of volume `vol`.
    Remove { vol: usize },
    /// Every continuation volume is gone.
    Done,
    /// Removal failed for another reason than absence: the open fails.
    Fail,
}

/// Truncation starts at volume 2: volume 1 is emptied through its open
/// flags, not removed.
pub fn truncate_first() -> (r: TruncateAction)
    ensures
        r == (TruncateAction::Remove { vol: 2 }),
{
    TruncateAction::Remove { vol: 2 }
}

/// The step after removing continuation volume `vol` gave `outcome`: go
/// on upward after a removal, stop cleanly at the first volume that does
/// not exist, and fail on any other error.
pub fn truncate_step(vol: usize, outcome: RemoveOutcome) -> (r: TruncateAction)
    requires
        vol >= 2,
    ensures
        outcome == RemoveOutcome::Removed && vol < usize::MAX ==> r == (TruncateAction::Remove {
            vol: (vol + 1) as usize,
        }),
        outcome == RemoveOutcome::Removed && vol == usize::MAX ==> r == TruncateAction::Done,
        outcome == RemoveOutcome::NotFound ==> r == TruncateAction::Done,
        outcome == RemoveOutcome::Failed ==> r == TruncateAction::Fail,
{
    match outcome {
        RemoveOutcome::Removed => if vol < usize::MAX {
            TruncateAction::Remove { vol: vol + 1 }
        } else {
            TruncateAction::Done
        },
        RemoveOutcome::NotFound => TruncateAction::Done,
        RemoveOutcome::Failed => TruncateAction::Fail,
    }
}

/// The next action of opening a split file. Volumes are numbered from 1.
#[derive(Clone, Copy, Debug, PartialEq, Eq, Structural)]
pub enum OpenAction {
    /// Remove the continuation volumes, driven by `truncate_step`.
    Truncate,
    /// Open the file of volume `vol` with `flags`.
    Open { vol: usize, flags: VolumeFlags },
    /// Tell whether the file of volume `vol` exists, and report it to the
    /// next `open_step`.
    Probe { vol: usize },
    /// Seek the opened file to its logical end.
    SeekEnd,
    /// The file is open.
    Done,
}

/// Where an open stands: the options, whether truncation was asked for
/// already, how many volumes are open, whether a probe awaits its answer,
/// and whether discovery is over.
pub struct OpenPlan {
    opts: OpenOptions,
    truncated: bool,
    opened: usize,
    probing: bool,
    ended: bool,
}

/// The state of an open: options, truncation asked, volumes opened, probe
/// outstanding, discovery over.
pub type OpenStage = (OpenOptions, bool, nat, bool, bool);

/// What an open decides in `stage`, given what the last probe found; the
/// result is the next stage and the action.
///
/// Truncation comes first where the options ask for it; then volume 1 is
/// opened with the user's flags; after volume `k` is opened, volume `k + 1`
/// is probed; a probe that finds the file opens it as a continuation, one
/// that does not ends discovery, with a seek to the end in append mode.
pub open spec fn open_decision(stage: OpenStage, found: Option<bool>) -> (OpenStage, OpenAction) {
    let (o, truncated, opened, probing, ended) = stage;
    if o.truncate && !truncated {
        ((o, true, opened, probing, ended), OpenAction::Truncate)
    } else if opened == 0 {
        ((o, truncated, 1, false, false), OpenAction::Open { vol: 1, flags: volume_flags_spec(o, true) })
    } else if ended {
        (stage, OpenAction::Done)
    } else if !probing {
        if opened < usize::MAX {
            ((o, truncated, opened, true, false), OpenAction::Probe { vol: (opened + 1) as usize })
        } else {
            ((o, truncated, opened, false, true), if o.append {
                OpenAction::SeekEnd
            } else {
                OpenAction::Done
            })
        }
    } else if found == Some(true) && opened < usize::MAX {
        (
            (o, truncated, opened + 1, false, false),
            OpenAction::Open { vol: (opened + 1) as usize, flags: volume_flags_spec(o, false) },
        )
    } else {
        ((o, truncated, opened, false, true), if o.append {
            OpenAction::SeekEnd
        } else {
            OpenAction::Done
        })
    }
}

impl OpenPlan {
    /// Where the open stands.
    pub closed spec fn stage(&self) -> OpenStage {
        (self.opts, self.truncated, self.opened as nat, self.probing, self.ended)
    }

    /// An open with `opts` that has done nothing yet.
    pub fn new(opts: OpenOptions) -> (r: OpenPlan)
        ensures
            r.stage() == (opts, false, 0nat, false, false),
    {
        OpenPlan { opts, truncated: false, opened: 0, probing: false, ended: false }
    }

    /// The number of volumes opened so far.
    pub fn opened(&self) -> (r: usize)
        ensures
            r == self.stage().2,
    {
        self.opened
    }

    /// The next action, given what the last probe found (`None` where the
    /// last action was no probe).
    pub fn open_step(&mut self, found: Option<bool>) -> (r: OpenAction)
        ensures
            (final(self).stage(), r) == open_decision(old(self).stage(), found),
    {
        if self.opts.truncate && !self.truncated {
            self.truncated = true;
            return OpenAction::Truncate;
        }
        if self.opened == 0 {
            self.opened = 1;
            self.probing = false;
            self.ended = false;
            return OpenAction::Open { vol: 1, flags: self.opts.volume_flags(true) };
        }
        if self.ended {
            return OpenAction::Done;
        }
        if !self.probing {
            if self.opened < usize::MAX {
                self.probing = true;
                return OpenAction::Probe { vol: self.opened + 1 };
            }
        } else if found == Some(true) && self.opened < usize::MAX {
            self.opened = self.opened + 1;
            self.probing = false;
            return OpenAction::Open { vol: self.opened, flags: self.opts.volume_flags(false) };
        }
        self.probing = false;
        self.ended = true;
        if self.opts.append {
            OpenAction::SeekEnd
        } else {
            OpenAction::Done
        }
    }
}

} // verus!
