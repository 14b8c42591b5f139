use vstd::prelude::*;
use crate::sprite::{Sprite, models, sentinel_model};

verus! {

/// Where the viewer's work stands.
#[derive(Clone, Copy, Debug, PartialEq, Eq, Structural)]
pub enum Phase {
    /// Nothing running; a check may start.
    Idle,
    /// A check is running; the catalog is read-only.
    Checking,
    /// The last check finished; the collection may be packed.
    Ready,
    /// A pack is running.
    Packing,
}

/// What the inspector shows.
#[derive(Clone, Copy, Debug, PartialEq, Eq, Structural)]
pub enum InspectMode {
    Animation,
    Backup,
    Collection,
}

/// A message on the pack progress channel, as the viewer sees it.
#[derive(Clone, Copy, Debug, PartialEq, Eq, Structural)]
pub enum ProgressEvent {
    /// Nothing arrived.
    Empty,
    /// `done` sprites of the collection are painted.
    Progress { done: usize },
    /// A cancel request came back on the channel.
    Cancelled,
    /// The worker is gone.
    Disconnected,
}

/// The viewer's state: the phase, the inspector mode, the pack progress and
/// the sprites reported as changed, each listed once.
pub struct Session {
    pub phase: Phase,
    pub inspect_mode: InspectMode,
    pub done: usize,
    pub total: usize,
    pub changed: Vec<Sprite>,
}

impl Session {
    pub open spec fn wf(&self) -> bool {
        models(self.changed@).no_duplicates()
    }

    pub fn new() -> (r: Session)
        ensures
            r.wf(),
            r.phase == Phase::Idle,
            r.inspect_mode == InspectMode::Animation,
            r.changed@.len() == 0,
    {
        let r = Session {
            phase: Phase::Idle,
            inspect_mode: InspectMode::Animation,
            done: 0,
            total: 0,
            changed: Vec::new(),
        };
        proof {
            assert(models(r.changed@) =~= Seq::empty());
        }
        r
    }

    /// Selection and navigation are allowed: neither a check nor a pack runs.
    pub fn ui_enabled(&self) -> (r: bool)
        ensures
            r == (self.phase != Phase::Checking && self.phase != Phase::Packing),
    {
        self.phase != Phase::Checking && self.phase != Phase::Packing
    }

    /// A collection was selected in the inspector: a finished check no longer
    /// allows packing.
    pub fn select_collection(&mut self)
        ensures
            final(self).inspect_mode == InspectMode::Collection,
            final(self).phase == if old(self).phase == Phase::Ready {
                Phase::Idle
            } else {
                old(self).phase
            },
            final(self).changed == old(self).changed,
            final(self).done == old(self).done,
            final(self).total == old(self).total,
    {
        self.inspect_mode = InspectMode::Collection;
        if self.phase == Phase::Ready {
            self.phase = Phase::Idle;
        }
    }

    /// The check button was pressed. A check starts only from `Idle` with a
    /// collection in the inspector; returns whether it started.
    pub fn start_check(&mut self) -> (started: bool)
        ensures
            started == (old(self).phase == Phase::Idle && old(self).inspect_mode
                == InspectMode::Collection),
            final(self).phase == if started {
                Phase::Checking
            } else {
                old(self).phase
            },
            final(self).inspect_mode == old(self).inspect_mode,
            final(self).changed == old(self).changed,
            final(self).done == old(self).done,
            final(self).total == old(self).total,
    {
        if self.phase == Phase::Idle && self.inspect_mode == InspectMode::Collection {
            self.phase = Phase::Checking;
            true
        } else {
            false
        }
    }

    /// A sprite arrived on the changed-sprites channel. The all-zero sprite
    /// ends a check; any other sprite joins the changed list unless it is
    /// there already.
    pub fn on_changed_sprite(&mut self, s: Sprite)
        requires
            old(self).wf(),
        ensures
            final(self).wf(),
            s@ == sentinel_model() ==> models(final(self).changed@) == models(old(self).changed@)
                && final(self).phase == if old(self).phase == Phase::Checking {
                Phase::Ready
            } else {
                old(self).phase
            },
            s@ != sentinel_model() ==> final(self).phase == old(self).phase && models(final(self).changed@) == if models(old(self).changed@).contains(s@) {
                models(old(self).changed@)
            } else {
                models(old(self).changed@).push(s@)
            },
            final(self).inspect_mode == old(self).inspect_mode,
            final(self).done == old(self).done,
            final(self).total == old(self).total,
    {
        let sentinel = Sprite::sentinel();
        if s == sentinel {
            if self.phase == Phase::Checking {
                self.phase = Phase::Ready;
            }
            return ;
        }
        let ghost before = models(self.changed@);
        let mut k: usize = 0;
        while k < self.changed.len()
            invariant
                k <= self.changed.len(),
                before == models(self.changed@),
                *self == *old(self),
                self.wf(),
                s@ != sentinel_model(),
                forall|m: int| 0 <= m < k ==> before[m] != s@,
            decreases self.changed.len() - k,
        {
            if self.changed[k] == s {
                proof {
                    assert(before[k as int] == s@);
                }
                return ;
            }
            k += 1;
        }
        proof {
            assert(!before.contains(s@));
        }
        self.changed.push(s);
        proof {
            assert(models(self.changed@) =~= before.push(s@));
        }
    }

    /// A running check stopped on an error: it ends without allowing a pack.
    pub fn check_failed(&mut self)
        ensures
            final(self).phase == if old(self).phase == Phase::Checking {
                Phase::Idle
            } else {
                old(self).phase
            },
            final(self).inspect_mode == old(self).inspect_mode,
            final(self).changed == old(self).changed,
            final(self).done == old(self).done,
            final(self).total == old(self).total,
    {
        if self.phase == Phase::Checking {
            self.phase = Phase::Idle;
        }
    }

    /// The pack button was pressed. A pack starts only from `Ready`; returns
    /// whether it started.
    pub fn start_pack(&mut self, total: usize) -> (started: bool)
        ensures
            started == (old(self).phase == Phase::Ready),
            started ==> final(self).phase == Phase::Packing && final(self).done == 0 && final(self).total == total,
            !started ==> final(self).phase == old(self).phase && final(self).done == old(self).done
                && final(self).total == old(self).total,
            final(self).inspect_mode == old(self).inspect_mode,
            final(self).changed == old(self).changed,
    {
        if self.phase == Phase::Ready {
            self.phase = Phase::Packing;
            self.done = 0;
            self.total = total;
            true
        } else {
            false
        }
    }

    /// The cancel button was pressed: a running pack stops. Returns whether a
    /// cancel request goes to the worker.
    pub fn cancel_pack(&mut self) -> (send: bool)
        ensures
            send == (old(self).phase == Phase::Packing),
            final(self).phase == if send {
                Phase::Idle
            } else {
                old(self).phase
            },
            final(self).inspect_mode == old(self).inspect_mode,
            final(self).changed == old(self).changed,
            final(self).done == old(self).done,
            final(self).total == old(self).total,
    {
        if self.phase == Phase::Packing {
            self.phase = Phase::Idle;
            true
        } else {
            false
        }
    }

    /// A poll of the progress channel while packing. A progress count is
    /// recorded, and the pack ends once it reaches the total; a cancel or a
    /// vanished worker ends it too. Outside `Packing` nothing changes.
    pub fn on_progress(&mut self, ev: ProgressEvent)
        ensures
            final(self).inspect_mode == old(self).inspect_mode,
            final(self).changed == old(self).changed,
            final(self).total == old(self).total,
            old(self).phase != Phase::Packing ==> final(self).phase == old(self).phase && final(self).done == old(self).done,
            old(self).phase == Phase::Packing ==> match ev {
                ProgressEvent::Empty => final(self).phase == Phase::Packing && final(self).done
                    == old(self).done,
                ProgressEvent::Progress { done } => final(self).done == done && final(self).phase
                    == if done >= old(self).total {
                    Phase::Idle
                } else {
                    Phase::Packing
                },
                _ => final(self).phase == Phase::Idle && final(self).done == old(self).done,
            },
    {
        if self.phase != Phase::Packing {
            return ;
        }
        match ev {
            ProgressEvent::Empty => {},
            ProgressEvent::Progress { done } => {
                self.done = done;
                if done >= self.total {
                    self.phase = Phase::Idle;
                }
            },
            ProgressEvent::Cancelled => {
                self.phase = Phase::Idle;
            },
            ProgressEvent::Disconnected => {
                self.phase = Phase::Idle;
            },
        }
    }
}

/// The frame shown after frame `index` of a clip of `len` frames: the next
/// one, or the clip's loop start after the last.
pub fn next_frame_index(index: usize, len: usize, loop_start: u32) -> (r: usize)
    ensures
        r == if index as int + 1 >= len {
            loop_start as usize
        } else {
            (index + 1) as usize
        },
{
    if index >= len || len - index <= 1 {
        loop_start as usize
    } else {
        index + 1
    }
}

} // verus!
