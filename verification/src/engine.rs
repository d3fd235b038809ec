//! The animation engine: the state of one interactive session — the
//! selected spinner, the frame index, the interval — and the pure
//! transition step that reacts to one key or timeout event.

use vstd::prelude::*;
use vstd::string::*;

use crate::args::SpinnConfig;
use crate::export;
use crate::export::SpinnExport;
use crate::registry::Registry;

verus! {

/// One event of the interactive loop: a timeout with no key, one of
/// the recognized keys, or anything else.
pub enum SpinnEvent {
    Timeout,
    Quit,
    SpeedDown,
    SpeedUp,
    NextSpinner,
    PrevSpinner,
    Other,
}

/// The frame index that follows `f` in a sequence of `n` frames,
/// wrapping past the last frame.
pub open spec fn next_frame_index(f: nat, n: nat) -> nat {
    if f + 1 < n {
        (f + 1) as nat
    } else {
        0
    }
}

/// The frame index after `k` timeout-driven advances.
pub open spec fn advance_times(f: nat, n: nat, k: nat) -> nat
    decreases k,
{
    if k == 0 {
        f
    } else {
        advance_times(next_frame_index(f, n), n, (k - 1) as nat)
    }
}

/// Within one lap the advanced index is the sum, wrapped at most once.
proof fn lemma_advance_within_lap(f: nat, n: nat, k: nat)
    requires
        n > 0,
        f < n,
        k <= n,
    ensures
        advance_times(f, n, k) == if f + k < n {
            (f + k) as int
        } else {
            f + k - n
        },
    decreases k,
{
    if k > 0 {
        lemma_advance_within_lap(next_frame_index(f, n), n, (k - 1) as nat);
    }
}

/// After as many timeout-driven advances as the spinner has frames,
/// the frame index is back where it started.
pub proof fn lemma_frame_cycle(f: nat, n: nat)
    requires
        n > 0,
        f < n,
    ensures
        advance_times(f, n, n) == f,
{
    lemma_advance_within_lap(f, n, n);
}

/// The initial interval: clamped into the working range and rounded
/// down to the 50 ms grid.
pub open spec fn clamp_interval(v: nat) -> nat {
    if v < 100 {
        100
    } else if v > 1000 {
        1000
    } else {
        (v - v % 50) as nat
    }
}

/// The multi-line flag an export uses when none was configured.
pub open spec fn multi_line_or_default(ml: Option<bool>) -> bool {
    match ml {
        Some(b) => b,
        None => true,
    }
}

/// The state of one interactive session.
pub struct Spinn {
    pub interval: u32,
    pub pick: String,
    pub frame: usize,
    pub export: Option<SpinnExport>,
    pub multi_line: Option<bool>,
    pub quote: char,
    pub items: Registry,
}

impl Spinn {
    /// The frame sequence of the selected spinner.
    pub open spec fn sel_frames(self) -> Seq<Seq<char>> {
        self.items.frames_of(self.pick@)
    }

    /// A usable registry and an interval on the 50 ms grid inside the
    /// working range; nothing yet about the selection.
    pub open spec fn reg_ok(self) -> bool {
        &&& self.items.wf()
        &&& self.items.len() > 0
        &&& 100 <= self.interval <= 1000
        &&& self.interval % 50 == 0
    }

    /// What holds between steps, the frame index aside: a usable
    /// registry and a selection it contains.
    pub open spec fn base_inv(self) -> bool {
        self.reg_ok() && self.items.contains_name(self.pick@)
    }

    /// The full session invariant: the frame index addresses a frame
    /// of the selected spinner.
    pub open spec fn inv(self) -> bool {
        self.base_inv() && (self.frame as nat) < self.sel_frames().len()
    }

    /// The frame index after `k` timeout events with no other input,
    /// starting from this state.
    pub open spec fn frame_after_timeouts(self, k: nat) -> nat {
        advance_times(self.frame as nat, self.sel_frames().len(), k)
    }

    /// As many timeout events as the selected spinner has frames bring
    /// the frame index back to its starting value.
    pub proof fn lemma_timeout_round_trip(self)
        requires
            self.inv(),
        ensures
            self.frame_after_timeouts(self.sel_frames().len()) == self.frame,
    {
        self.lemma_sel_frames_nonempty();
        lemma_frame_cycle(self.frame as nat, self.sel_frames().len());
    }

    /// A contained selection selects a non-empty frame sequence.
    pub proof fn lemma_sel_frames_nonempty(self)
        requires
            self.items.wf(),
            self.items.contains_name(self.pick@),
        ensures
            self.sel_frames().len() > 0,
    {
        let i = self.items.index_of(self.pick@);
        assert(0 <= i < self.items.len() && self.items.names()[i] == self.pick@);
        assert(self.items.defs@[i].valid());
        assert(self.items.frames_at(i).len() == self.items.defs@[i].frames@.len());
    }

    /// A fresh session over a built registry, hardened against a
    /// configuration the registry cannot honour: an absent selection
    /// asks for the built-in default name, an unknown one falls back
    /// to the first name, and the interval is clamped to the grid.
    pub fn new(config: SpinnConfig, items: Registry) -> (r: Spinn)
        requires
            items.wf(),
            items.len() > 0,
        ensures
            r.inv(),
            r.items == items,
            r.frame == 0,
            r.export == config.export_as,
            r.multi_line == config.multi_line,
            r.quote == match config.quote {
                Some(q) => q,
                None => '"',
            },
            r.interval == clamp_interval(
                match config.interval {
                    Some(v) => v as nat,
                    None => 100,
                },
            ),
            r.pick@ == {
                let desired = match config.pick {
                    Some(p) => p@,
                    None => "default"@,
                };
                if items.contains_name(desired) {
                    desired
                } else {
                    items.names()[0]
                }
            },
    {
        let desired: String = match config.pick {
            Some(p) => p,
            None => "default".to_owned(),
        };
        let pick: String = if items.has_name(desired.as_str()) {
            desired
        } else {
            proof {
                items.lemma_index_of_position(0);
            }
            let first = items.sorted_names();
            proof {
                assert(first.deep_view().len() == first@.len());
                assert(first.deep_view().len() == items.names().len());
                assert(first.deep_view()[0] == first@[0]@);
            }
            first[0].clone()
        };
        let raw: u32 = match config.interval {
            Some(v) => v,
            None => 100,
        };
        let interval: u32 = if raw < 100 {
            100
        } else if raw > 1000 {
            1000
        } else {
            raw - raw % 50
        };
        let quote: char = match config.quote {
            Some(q) => q,
            None => '"',
        };
        let r = Spinn {
            interval,
            pick,
            frame: 0,
            export: config.export_as,
            multi_line: config.multi_line,
            quote,
            items,
        };
        proof {
            if r.items.contains_name(r.pick@) {
                r.lemma_sel_frames_nonempty();
            } else {
                assert(r.items.names()[0] == r.pick@);
                assert(r.items.contains_name(r.pick@));
            }
        }
        r
    }

    /// The sorted spinner names: the fixed navigation ring.
    pub fn _layouts(&self) -> (r: Vec<String>)
        ensures
            r.deep_view() == self.items.names(),
    {
        self.items.sorted_names()
    }

    /// Selects the next spinner on the ring; a selection the registry
    /// does not hold falls back to the first name. The frame index is
    /// not touched here.
    pub fn next_loader(&mut self)
        requires
            old(self).reg_ok(),
        ensures
            final(self).base_inv(),
            old(self).items.contains_name(old(self).pick@) ==> final(self).pick@ == old(
                self,
            ).items.spec_next(old(self).pick@),
            !old(self).items.contains_name(old(self).pick@) ==> final(self).pick@ == old(
                self,
            ).items.names()[0],
            final(self).interval == old(self).interval,
            final(self).frame == old(self).frame,
            final(self).items == old(self).items,
            final(self).export == old(self).export,
            final(self).multi_line == old(self).multi_line,
            final(self).quote == old(self).quote,
    {
        let p = self.items.next(self.pick.as_str());
        self.pick = p;
        proof {
            if old(self).items.contains_name(old(self).pick@) {
                let i = old(self).items.index_of(old(self).pick@);
                let ni = old(self).items.next_index(i);
                assert(0 <= ni < self.items.len());
                assert(self.items.names()[ni] == self.pick@);
            } else {
                assert(self.items.names()[0] == self.pick@);
            }
            assert(self.items.contains_name(self.pick@));
        }
    }

    /// Selects the previous spinner on the ring; a selection the
    /// registry does not hold falls back to the last name. The frame
    /// index is not touched here.
    pub fn prev_loader(&mut self)
        requires
            old(self).reg_ok(),
        ensures
            final(self).base_inv(),
            old(self).items.contains_name(old(self).pick@) ==> final(self).pick@ == old(
                self,
            ).items.spec_prev(old(self).pick@),
            !old(self).items.contains_name(old(self).pick@) ==> final(self).pick@ == old(
                self,
            ).items.names()[old(self).items.len() - 1],
            final(self).interval == old(self).interval,
            final(self).frame == old(self).frame,
            final(self).items == old(self).items,
            final(self).export == old(self).export,
            final(self).multi_line == old(self).multi_line,
            final(self).quote == old(self).quote,
    {
        let p = self.items.prev(self.pick.as_str());
        self.pick = p;
        proof {
            if old(self).items.contains_name(old(self).pick@) {
                let i = old(self).items.index_of(old(self).pick@);
                let pi = old(self).items.prev_index(i);
                assert(0 <= pi < self.items.len());
                assert(self.items.names()[pi] == self.pick@);
            } else {
                assert(self.items.names()[self.items.len() - 1] == self.pick@);
            }
            assert(self.items.contains_name(self.pick@));
        }
    }

    /// Whether the selection is the first name and whether it is the
    /// last, for dimming the navigation indicators; the single name of
    /// a one-spinner registry is both.
    pub fn _show_indicator(&self) -> (r: (bool, bool))
        requires
            self.base_inv(),
        ensures
            r.0 == (self.items.index_of(self.pick@) == 0),
            r.1 == (self.items.index_of(self.pick@) == self.items.len() - 1),
    {
        self.items.indicator(self.pick.as_str())
    }

    /// Advances the frame index by one, wrapping past the last frame.
    pub fn next_frame(&mut self)
        requires
            old(self).inv(),
        ensures
            final(self).inv(),
            final(self).frame == next_frame_index(old(self).frame as nat, old(self).sel_frames().len()),
            final(self).pick == old(self).pick,
            final(self).interval == old(self).interval,
            final(self).items == old(self).items,
            final(self).export == old(self).export,
            final(self).multi_line == old(self).multi_line,
            final(self).quote == old(self).quote,
    {
        let n = match self.items.frames(self.pick.as_str()) {
            Some(v) => v.len(),
            None => 1,
        };
        proof {
            assert(n == self.sel_frames().len());
        }
        if self.frame + 1 < n {
            self.frame = self.frame + 1;
        } else {
            self.frame = 0;
        }
        proof {
            self.lemma_sel_frames_nonempty();
        }
    }

    /// One transition of the session state machine; the result says
    /// whether the session is over.
    pub fn step(&mut self, event: SpinnEvent) -> (quit: bool)
        requires
            old(self).inv(),
        ensures
            final(self).inv(),
            final(self).items == old(self).items,
            final(self).export == old(self).export,
            final(self).multi_line == old(self).multi_line,
            final(self).quote == old(self).quote,
            quit == (event is Quit),
            match event {
                SpinnEvent::Timeout => {
                    &&& final(self).frame == next_frame_index(
                        old(self).frame as nat,
                        old(self).sel_frames().len(),
                    )
                    &&& final(self).pick == old(self).pick
                    &&& final(self).interval == old(self).interval
                },
                SpinnEvent::Quit => *final(self) == *old(self),
                SpinnEvent::SpeedDown => {
                    &&& final(self).interval == if old(self).interval > 100 {
                        old(self).interval - 50
                    } else {
                        old(self).interval as int
                    }
                    &&& final(self).pick == old(self).pick
                    &&& final(self).frame == old(self).frame
                },
                SpinnEvent::SpeedUp => {
                    &&& final(self).interval == if old(self).interval < 1000 {
                        old(self).interval + 50
                    } else {
                        old(self).interval as int
                    }
                    &&& final(self).pick == old(self).pick
                    &&& final(self).frame == old(self).frame
                },
                SpinnEvent::NextSpinner => {
                    &&& final(self).pick@ == old(self).items.spec_next(old(self).pick@)
                    &&& final(self).frame == 0
                    &&& final(self).interval == old(self).interval
                },
                SpinnEvent::PrevSpinner => {
                    &&& final(self).pick@ == old(self).items.spec_prev(old(self).pick@)
                    &&& final(self).frame == 0
                    &&& final(self).interval == old(self).interval
                },
                SpinnEvent::Other => *final(self) == *old(self),
            },
    {
        match event {
            SpinnEvent::Timeout => {
                self.next_frame();
                false
            },
            SpinnEvent::Quit => true,
            SpinnEvent::SpeedDown => {
                if self.interval > 100 {
                    self.interval = self.interval - 50;
                }
                false
            },
            SpinnEvent::SpeedUp => {
                if self.interval < 1000 {
                    self.interval = self.interval + 50;
                }
                false
            },
            SpinnEvent::NextSpinner => {
                self.next_loader();
                self.frame = 0;
                proof {
                    self.lemma_sel_frames_nonempty();
                }
                false
            },
            SpinnEvent::PrevSpinner => {
                self.prev_loader();
                self.frame = 0;
                proof {
                    self.lemma_sel_frames_nonempty();
                }
                false
            },
            SpinnEvent::Other => false,
        }
    }

    /// The configured export of the selected spinner's frames, if an
    /// export was asked for.
    pub fn export(&self) -> (r: Option<String>)
        requires
            self.inv(),
        ensures
            match self.export {
                None => r is None,
                Some(mode) => r matches Some(s) && s@ == export::export_spec(
                    mode,
                    self.quote,
                    multi_line_or_default(self.multi_line),
                    self.sel_frames(),
                ),
            },
    {
        let mode = match &self.export {
            None => {
                return None;
            },
            Some(m) => m,
        };
        let ml = match self.multi_line {
            Some(b) => b,
            None => true,
        };
        match self.items.frames(self.pick.as_str()) {
            Some(v) => Some(export::export(mode, &self.quote, &ml, v)),
            None => None,
        }
    }
}

} // verus!
