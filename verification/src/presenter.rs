//! The presenter boundary: what the render side decides about a yielded
//! mesh. The GPU upload and draw call are outside the library; verified
//! here is the bookkeeping around them — rebuild only for a fresh
//! timestamp, keep showing the last mesh otherwise, and report how the
//! shown mesh relates to the current frame.

use vstd::prelude::*;

use crate::scheduler::GeneratedModel;

verus! {

/// How the shown mesh's timestamp relates to the current frame.
#[derive(Clone, Copy, PartialEq, Eq, Structural, Debug)]
pub enum SyncStatus {
    InSync,
    Behind(u32),
    Ahead(u32),
}

/// The status the render side reports for a mesh built for `shown` while
/// the display is at `frame`.
pub open spec fn status_of(shown: u32, frame: u32) -> SyncStatus {
    if shown == frame {
        SyncStatus::InSync
    } else if shown < frame {
        SyncStatus::Behind((frame - shown) as u32)
    } else {
        SyncStatus::Ahead((shown - frame) as u32)
    }
}

/// Rebuild bookkeeping: the timestamp of the mesh the render side last
/// rebuilt its GPU state for, if any.
pub struct Presenter {
    pub shown_ts: Option<u32>,
}

impl Presenter {
    /// A presenter that has not shown anything yet.
    pub fn new() -> (p: Self)
        ensures
            p.shown_ts is None,
    {
        Presenter { shown_ts: None }
    }

    /// Decide what to do with one frame's yield: a mesh with a new
    /// timestamp must be uploaded and is remembered; the same timestamp
    /// again, or no mesh at all, leaves the shown state alone.
    pub fn accept<M>(&mut self, fresh: Option<GeneratedModel<M>>) -> (upload: Option<
        GeneratedModel<M>,
    >)
        ensures
            fresh is None ==> final(self).shown_ts == old(self).shown_ts && upload is None,
            fresh matches Some(m) ==> if old(self).shown_ts == Some(m.ts) {
                final(self).shown_ts == old(self).shown_ts && upload is None
            } else {
                final(self).shown_ts == Some(m.ts) && upload == fresh
            },
    {
        match fresh {
            None => None,
            Some(m) => {
                let same = match self.shown_ts {
                    Some(t) => t == m.ts,
                    None => false,
                };
                if same {
                    None
                } else {
                    self.shown_ts = Some(m.ts);
                    Some(m)
                }
            },
        }
    }

    /// How the shown mesh relates to `frame`: in sync, trailing by so many
    /// frames, or leading; nothing when nothing was shown yet.
    pub fn status(&self, frame: u32) -> (s: Option<SyncStatus>)
        ensures
            s is Some <==> self.shown_ts is Some,
            self.shown_ts matches Some(t) ==> s == Some(status_of(t, frame)),
    {
        match self.shown_ts {
            None => None,
            Some(t) => Some(
                if t == frame {
                    SyncStatus::InSync
                } else if t < frame {
                    SyncStatus::Behind(frame - t)
                } else {
                    SyncStatus::Ahead(t - frame)
                },
            ),
        }
    }
}

} // verus!
