//! The LoRa link: its radio settings and the health of a half-duplex exchange.
//!
//! The pan/tilt packet is a few protobuf bytes sent tens of times a second, so the link uses the fastest sane
//! modulation (SF7 / BW 500 kHz / CR 4/5 at 915 MHz, short preamble, CRC on). [`LinkHealth`] counts the windows in
//! which the radio failed and says when to re-initialize it.

use vstd::prelude::*;

verus! {

/// Operating frequency in Hz: 915 MHz is the US ISM band.
pub const FREQUENCY_HZ: u32 = 915_000_000;

/// Preamble length in symbols. Both ends must use the same value.
pub const PREAMBLE_LEN: u16 = 8;

/// Largest payload, in bytes, that a receiver accepts.
pub const MAX_PAYLOAD: u8 = 64;

/// Version register of the SX127x.
pub const SX127X_REG_VERSION: u8 = 0x42;

/// What the version register reads on a working SX1276; anything else means that the SPI path does not reach the
/// chip.
pub const SX127X_VERSION: u8 = 0x12;

/// How the link is doing.
#[derive(Copy, Clone, Debug, PartialEq, Eq, Structural)]
pub enum LinkState {
    /// The last window that counted was faultless.
    Connected,
    /// Faults since the last faultless window (or since boot), but no re-initialization yet.
    Tentative,
    /// The radio was re-initialized and nothing faultless has been seen since.
    Disconnected,
}

/// What a window calls for.
#[derive(Copy, Clone, Debug, PartialEq, Eq, Structural)]
pub enum Serviced {
    /// Nothing.
    Idle,
    /// Re-initialize the radio.
    Reinit,
}

/// Counts consecutive radio-fault windows. At the threshold the radio is to be re-initialized, to clear a stuck RX or
/// TX stage; while disconnected the threshold is the slower back-off one, for a missing peer and a dead local radio
/// look identical.
pub struct LinkHealth {
    reinit_after: u32,
    backoff_after: u32,
    misses: u32,
    state: LinkState,
}

/// The health of a link, as a value.
pub struct Health {
    pub reinit_after: u32,
    pub backoff_after: u32,
    pub misses: u32,
    pub state: LinkState,
}

impl Health {
    /// How many faults in a row call for a re-initialization.
    pub open spec fn threshold(self) -> u32 {
        if self.state == LinkState::Disconnected {
            self.backoff_after
        } else {
            self.reinit_after
        }
    }

    /// What a window makes of the health, and what it calls for. `Some(true)` is a faultless exchange, `Some(false)` a
    /// fault that a reset could fix, `None` a foreign or corrupt frame, which says nothing about the radio.
    pub open spec fn next(self, outcome: Option<bool>) -> (Health, Serviced) {
        match outcome {
            None => (self, Serviced::Idle),
            Some(true) => (Health { misses: 0, state: LinkState::Connected, ..self }, Serviced::Idle),
            Some(false) => if self.misses + 1 >= self.threshold() {
                (Health { misses: 0, state: LinkState::Disconnected, ..self }, Serviced::Reinit)
            } else {
                (
                    Health {
                        misses: (self.misses + 1) as u32,
                        state: if self.state == LinkState::Disconnected {
                            LinkState::Disconnected
                        } else {
                            LinkState::Tentative
                        },
                        ..self
                    },
                    Serviced::Idle,
                )
            },
        }
    }

    /// The health after a run of windows.
    pub open spec fn after(self, outcomes: Seq<Option<bool>>) -> Health
        decreases outcomes.len(),
    {
        if outcomes.len() == 0 {
            self
        } else {
            self.next(outcomes[0]).0.after(outcomes.drop_first())
        }
    }

    /// How many re-initializations a run of windows calls for.
    pub open spec fn reinits(self, outcomes: Seq<Option<bool>>) -> nat
        decreases outcomes.len(),
    {
        if outcomes.len() == 0 {
            0
        } else {
            let (next, serviced) = self.next(outcomes[0]);
            next.reinits(outcomes.drop_first()) + if serviced == Serviced::Reinit {
                1nat
            } else {
                0
            }
        }
    }
}

impl LinkHealth {
    /// The health, as a value.
    pub closed spec fn health(&self) -> Health {
        Health {
            reinit_after: self.reinit_after,
            backoff_after: self.backoff_after,
            misses: self.misses,
            state: self.state,
        }
    }

    /// The count of faults stays below what would call for a re-initialization.
    pub closed spec fn wf(&self) -> bool {
        self.misses == 0 || self.misses < self.health().threshold()
    }

    /// A link of which nothing is known yet: re-initialize after `reinit_after` faults in a row, and after
    /// `backoff_after` while disconnected.
    pub fn new(reinit_after: u32, backoff_after: u32) -> (link: Self)
        ensures
            link.wf(),
            link.health() == (Health { reinit_after, backoff_after, misses: 0, state: LinkState::Tentative }),
    {
        LinkHealth { reinit_after, backoff_after, misses: 0, state: LinkState::Tentative }
    }

    /// How the link is doing.
    pub fn state(&self) -> (state: LinkState)
        ensures
            state == self.health().state,
    {
        self.state
    }

    /// Takes in the outcome of one window and says what it calls for.
    pub fn service(&mut self, outcome: Option<bool>) -> (serviced: Serviced)
        requires
            old(self).wf(),
        ensures
            final(self).wf(),
            old(self).health().next(outcome) == (final(self).health(), serviced),
    {
        match outcome {
            None => Serviced::Idle,
            Some(true) => {
                self.misses = 0;
                self.state = LinkState::Connected;
                Serviced::Idle
            },
            Some(false) => {
                let down = self.state == LinkState::Disconnected;
                let threshold: u32 = if down {
                    self.backoff_after
                } else {
                    self.reinit_after
                };
                if threshold <= 1 || self.misses >= threshold - 1 {
                    self.misses = 0;
                    self.state = LinkState::Disconnected;
                    Serviced::Reinit
                } else {
                    self.misses += 1;
                    if !down {
                        self.state = LinkState::Tentative;
                    }
                    Serviced::Idle
                }
            },
        }
    }
}

// ---------------------------------------------------------------------------------------------------------------
// Laws
// ---------------------------------------------------------------------------------------------------------------

/// Foreign frames never move the health: however many come, none causes a re-initialization.
pub proof fn law_foreign_frames_are_neutral(h: Health, outcomes: Seq<Option<bool>>)
    requires
        forall|i: int| 0 <= i < outcomes.len() ==> (#[trigger] outcomes[i]) is None,
    ensures
        h.after(outcomes) == h,
        h.reinits(outcomes) == 0,
    decreases outcomes.len(),
{
    if outcomes.len() > 0 {
        assert(outcomes[0] is None);
        let rest = outcomes.drop_first();
        assert forall|i: int| 0 <= i < rest.len() implies (#[trigger] rest[i]) is None by {
            assert(outcomes[i + 1] is None);
        }
        law_foreign_frames_are_neutral(h, rest);
    }
}

/// One faultless window connects the link, whatever came before, and re-arms the fast threshold.
pub proof fn law_faultless_window_connects(h: Health)
    ensures
        h.next(Some(true)).0.state == LinkState::Connected,
        h.next(Some(true)).0.misses == 0,
        h.next(Some(true)).0.threshold() == h.reinit_after,
        h.next(Some(true)).1 == Serviced::Idle,
{
}

/// Exactly the threshold's worth of faults in a row calls for a re-initialization, and then for only one: the fast
/// threshold while the link was up, the back-off one while it stays down.
pub proof fn law_reinit_comes_at_the_threshold(h: Health, outcomes: Seq<Option<bool>>)
    requires
        h.misses < h.threshold(),
        outcomes.len() <= h.threshold() - h.misses,
        forall|i: int| 0 <= i < outcomes.len() ==> #[trigger] outcomes[i] == Some(false),
    ensures
        h.reinits(outcomes) == (if outcomes.len() == h.threshold() - h.misses {
            1nat
        } else {
            0
        }),
        outcomes.len() == h.threshold() - h.misses ==> h.after(outcomes).state == LinkState::Disconnected && h.after(
            outcomes,
        ).threshold() == h.backoff_after,
    decreases outcomes.len(),
{
    if outcomes.len() > 0 {
        assert(outcomes[0] == Some(false));
        let (next, serviced) = h.next(outcomes[0]);
        let rest = outcomes.drop_first();
        if serviced == Serviced::Reinit {
            assert(rest =~= Seq::empty());
            assert(next.reinits(rest) == 0);
            assert(next.after(rest) == next);
        } else {
            assert(next.threshold() == h.threshold());
            assert forall|i: int| 0 <= i < rest.len() implies #[trigger] rest[i] == Some(false) by {
                assert(outcomes[i + 1] == Some(false));
            }
            law_reinit_comes_at_the_threshold(next, rest);
        }
    }
}

/// A run of `n` faults.
pub open spec fn faults(n: nat) -> Seq<Option<bool>> {
    Seq::new(n, |i: int| Some(false))
}

proof fn lemma_faults_while_down(h: Health, n: nat)
    requires
        h.state == LinkState::Disconnected,
        h.backoff_after > 0,
        h.misses < h.backoff_after,
    ensures
        h.reinits(faults(n)) == (h.misses + n) / (h.backoff_after as int),
        h.after(faults(n)).state == LinkState::Disconnected,
    decreases n,
{
    let b = h.backoff_after as int;
    let m = h.misses as int;
    if n == 0 {
        assert(m / b == 0) by (nonlinear_arith)
            requires
                0 <= m < b,
        ;
    } else {
        assert(faults(n).drop_first() =~= faults((n - 1) as nat));
        let (next, serviced) = h.next(Some(false));
        lemma_faults_while_down(next, (n - 1) as nat);
        if serviced == Serviced::Reinit {
            assert(m == b - 1);
            assert((b - 1 + n) / b == 1 + (n - 1) as int / b) by (nonlinear_arith)
                requires
                    b > 0,
                    n >= 1,
            ;
        }
    }
}

/// `n` faults in a row on a link that was up: none up to the fast threshold calls for a re-initialization, the one that
/// reaches it does, and from then on one in every `backoff_after`. The link reads tentative before the first, and
/// disconnected from it on.
pub proof fn law_faults_in_a_row(h: Health, n: nat)
    requires
        h.state == LinkState::Connected,
        h.misses == 0,
        h.reinit_after > 0,
        h.backoff_after > 0,
    ensures
        n < h.reinit_after ==> h.reinits(faults(n)) == 0,
        n >= h.reinit_after ==> h.reinits(faults(n)) == 1 + (n - h.reinit_after) / (h.backoff_after as int),
        0 < n < h.reinit_after ==> h.after(faults(n)).state == LinkState::Tentative && h.after(faults(n)).misses == n,
        n >= h.reinit_after ==> h.after(faults(n)).state == LinkState::Disconnected,
{
    lemma_faults_while_up(h, n);
}

proof fn lemma_faults_while_up(h: Health, n: nat)
    requires
        h.state != LinkState::Disconnected,
        h.misses < h.reinit_after,
        h.backoff_after > 0,
    ensures
        h.misses + n < h.reinit_after ==> h.reinits(faults(n)) == 0,
        h.misses + n >= h.reinit_after ==> h.reinits(faults(n)) == 1 + (h.misses + n - h.reinit_after) / (
        h.backoff_after as int),
        0 < n && h.misses + n < h.reinit_after ==> h.after(faults(n)).state == LinkState::Tentative && h.after(
            faults(n),
        ).misses == h.misses + n,
        h.misses + n >= h.reinit_after ==> h.after(faults(n)).state == LinkState::Disconnected,
    decreases n,
{
    if n > 0 {
        assert(faults(n).drop_first() =~= faults((n - 1) as nat));
        let (next, serviced) = h.next(Some(false));
        if serviced == Serviced::Reinit {
            lemma_faults_while_down(next, (n - 1) as nat);
        } else {
            lemma_faults_while_up(next, (n - 1) as nat);
            if n == 1 {
                assert(next.after(faults(0)) == next);
            }
        }
    }
}

/// One window, whatever came before: a faultless one connects and clears the count, a foreign one changes nothing, and a
/// fault never connects.
pub proof fn law_windows_move_the_link(h: Health, outcome: Option<bool>)
    ensures
        ({
            let (next, serviced) = h.next(outcome);
            &&& outcome == Some(true) ==> next.state == LinkState::Connected && next.misses == 0
            &&& outcome is None ==> next == h && serviced == Serviced::Idle
            &&& outcome == Some(false) ==> next.state != LinkState::Connected
            &&& outcome != Some(false) ==> serviced == Serviced::Idle
            &&& next.reinit_after == h.reinit_after && next.backoff_after == h.backoff_after
        }),
{
}

} // verus!
