//! The raffle's data model: configuration, identities, errors, and the
//! mathematical state with its transition functions and well-formedness
//! invariant.  The executable engine is specified entirely against this
//! model.

use vstd::prelude::*;

use crate::seq_facts::lemma_push_contains;
use crate::seq_facts::lemma_push_keeps_no_duplicates;
use crate::seq_facts::lemma_swap_remove_facts;

verus! {

/// An opaque, comparable, copyable participant identity, as the host
/// presents it.  The engine never inspects it beyond equality.
#[derive(Clone, Copy, PartialEq, Eq, Structural, Debug)]
pub struct AccountId(pub u64);

/// Deployment-time configuration, fixed for the lifetime of the engine.
#[derive(Clone, Copy, PartialEq, Eq, Structural, Debug)]
pub struct Config {
    /// Smallest accepted entry amount (inclusive).
    pub min_entry: u128,
    /// Largest accepted entry amount (inclusive).
    pub max_entry: u128,
    /// Number of participants that arms the countdown.
    pub min_participants: u64,
    /// Number of winners to draw before the raffle is finished.
    pub max_winners: u64,
    /// How long the countdown runs once armed.
    pub countdown_duration: u64,
}

impl Config {
    /// A usable configuration draws at least one winner, never more than
    /// the participants that arming guarantees, and has ordered entry
    /// bounds.  The winner count must also fit a vector length.
    pub open spec fn wf(self) -> bool {
        &&& 1 <= self.max_winners
        &&& self.max_winners <= self.min_participants
        &&& self.min_entry <= self.max_entry
        &&& self.max_winners <= usize::MAX as u64
    }

    /// Runtime check of `wf`, for callers outside verified code.
    pub fn is_valid(&self) -> (r: bool)
        ensures
            r == self.wf(),
    {
        1 <= self.max_winners && self.max_winners <= self.min_participants
            && self.min_entry <= self.max_entry && self.max_winners <= usize::MAX as u64
    }
}

/// Every way a mutating call can be refused.  Failures are checked before
/// any state change, so a refused call leaves the engine untouched.
#[derive(Clone, Copy, PartialEq, Eq, Structural, Debug)]
pub enum Error {
    /// The raffle is in a terminal phase for the requested operation.
    Finished,
    /// The attached value lies outside the configured entry bounds.
    InvalidEntryAmount,
    /// The caller has already entered.
    HasPlayed,
    /// No countdown is armed yet, or it has not elapsed.
    CountDownNotStarted,
    /// Too few participants to draw from.
    NotEnoughPlayer,
    /// A counter or balance would exceed its machine range.
    Overflow,
}

/// The abstract state of the raffle.
pub ghost struct Model {
    /// Fixed recipient of the collected value.
    pub beneficiary: AccountId,
    /// Every accepted entrant, in entry order; never shrinks.
    pub entrants: Seq<AccountId>,
    /// Entrants not yet drawn as winners; order changes by swap-remove.
    pub pool: Seq<AccountId>,
    /// Winners in draw order; append-only.
    pub winners: Seq<AccountId>,
    /// Sum of all accepted entry amounts.
    pub collected: u128,
    /// Countdown start timestamp, once armed.
    pub start: Option<u64>,
    /// The deployment-time configuration.
    pub cfg: Config,
}

impl Model {
    /// The state right after construction.
    pub open spec fn initial(beneficiary: AccountId, cfg: Config) -> Model {
        Model {
            beneficiary,
            entrants: Seq::empty(),
            pool: Seq::empty(),
            winners: Seq::empty(),
            collected: 0,
            start: None,
            cfg,
        }
    }

    /// All winners are drawn; the terminal phase.
    pub open spec fn finished(self) -> bool {
        self.winners.len() >= self.cfg.max_winners
    }

    /// The countdown has been armed.
    pub open spec fn armed(self) -> bool {
        self.start is Some
    }

    /// The armed countdown has elapsed at time `now`.
    pub open spec fn elapsed(self, now: u64) -> bool {
        self.armed() && now >= self.start.unwrap() + self.cfg.countdown_duration
    }

    /// Entry is closed once the winners are complete or once an armed
    /// countdown has elapsed.
    pub open spec fn entry_closed(self, now: u64) -> bool {
        self.finished() || self.elapsed(now)
    }

    /// The attached value lies within the configured bounds.
    pub open spec fn amount_in_bounds(self, amount: u128) -> bool {
        self.cfg.min_entry <= amount && amount <= self.cfg.max_entry
    }

    /// The identity has an accepted entry (drawn as a winner or not).
    pub open spec fn registered(self, who: AccountId) -> bool {
        self.entrants.contains(who)
    }

    /// Accepting one more entry would exceed a machine range: the balance
    /// total or the participant counter.
    pub open spec fn play_overflows(self, amount: u128) -> bool {
        self.collected + amount > u128::MAX || self.entrants.len() + 1 > u64::MAX
    }

    /// The verdict of `play`, with the checks in their required order:
    /// closed entry first, then the amount bounds, then the duplicate
    /// check, then the machine-range check.
    pub open spec fn play_result(self, caller: AccountId, amount: u128, now: u64) -> Result<
        (),
        Error,
    > {
        if self.entry_closed(now) {
            Err(Error::Finished)
        } else if !self.amount_in_bounds(amount) {
            Err(Error::InvalidEntryAmount)
        } else if self.registered(caller) {
            Err(Error::HasPlayed)
        } else if self.play_overflows(amount) {
            Err(Error::Overflow)
        } else {
            Ok(())
        }
    }

    /// Whether this accepted entry arms the countdown: the participant
    /// count reaches the minimum for the first time.
    pub open spec fn play_arms(self, caller: AccountId, amount: u128, now: u64) -> bool {
        &&& self.play_result(caller, amount, now) is Ok
        &&& !self.armed()
        &&& self.entrants.len() + 1 >= self.cfg.min_participants
    }

    /// The state after a `play` call; a refused call leaves it unchanged.
    pub open spec fn play_next(self, caller: AccountId, amount: u128, now: u64) -> Model {
        if self.play_result(caller, amount, now) is Ok {
            Model {
                beneficiary: self.beneficiary,
                entrants: self.entrants.push(caller),
                pool: self.pool.push(caller),
                winners: self.winners,
                collected: (self.collected + amount) as u128,
                start: if self.play_arms(caller, amount, now) {
                    Some(now)
                } else {
                    self.start
                },
                cfg: self.cfg,
            }
        } else {
            self
        }
    }

    /// The verdict of `draw`, with the checks in their required order:
    /// the terminal phase first, then countdown arming and elapse, then —
    /// defensively, it is unreachable once armed — the participant count.
    pub open spec fn draw_result(self, now: u64) -> Result<(), Error> {
        if self.finished() {
            Err(Error::Finished)
        } else if !self.elapsed(now) {
            Err(Error::CountDownNotStarted)
        } else if self.entrants.len() < self.cfg.min_participants {
            Err(Error::NotEnoughPlayer)
        } else {
            Ok(())
        }
    }

    /// The pool position selected by a raw entropy value: the value
    /// reduced modulo the current pool size.
    pub open spec fn winner_index(self, rand: u64) -> int {
        rand as int % self.pool.len() as int
    }

    /// The pool member selected by a raw entropy value.
    pub open spec fn drawn_winner(self, rand: u64) -> AccountId {
        self.pool[self.winner_index(rand)]
    }

    /// Whether this draw completes the winner list and therefore owes the
    /// whole collected amount to the beneficiary.
    pub open spec fn draw_pays(self, now: u64) -> bool {
        self.draw_result(now) is Ok && self.winners.len() + 1 == self.cfg.max_winners
    }

    /// The state after a `draw` call with entropy value `rand`: the
    /// selected pool member moves from the pool (by swap-remove) to the
    /// end of the winner list.  A refused call leaves the state unchanged.
    pub open spec fn draw_next(self, now: u64, rand: u64) -> Model {
        if self.draw_result(now) is Ok {
            Model {
                beneficiary: self.beneficiary,
                entrants: self.entrants,
                pool: self.pool.update(self.winner_index(rand), self.pool.last()).drop_last(),
                winners: self.winners.push(self.drawn_winner(rand)),
                collected: self.collected,
                start: self.start,
                cfg: self.cfg,
            }
        } else {
            self
        }
    }

    /// The countdown start as the accessors report it: zero while unarmed.
    pub open spec fn start_or_zero(self) -> u64 {
        match self.start {
            Some(s) => s,
            None => 0,
        }
    }

    /// The countdown deadline as the accessors report it: zero while
    /// unarmed, saturated at the timestamp range otherwise.
    pub open spec fn end_or_zero(self) -> u64 {
        match self.start {
            Some(s) => if s + self.cfg.countdown_duration > u64::MAX {
                u64::MAX
            } else {
                (s + self.cfg.countdown_duration) as u64
            },
            None => 0,
        }
    }

    /// Well-formedness: the configuration is usable; no identity appears
    /// twice anywhere; the pool and the winner list partition the
    /// registry; the winner list never exceeds its cap; the countdown is
    /// armed exactly when the registry has reached the minimum; and the
    /// participant counter fits its machine range.
    pub open spec fn wf(self) -> bool {
        &&& self.cfg.wf()
        &&& self.entrants.no_duplicates()
        &&& self.pool.no_duplicates()
        &&& self.winners.no_duplicates()
        &&& self.pool.len() + self.winners.len() == self.entrants.len()
        &&& forall|x: AccountId| #![auto]
            self.entrants.contains(x) <==> (self.pool.contains(x) || self.winners.contains(x))
        &&& forall|x: AccountId| #![auto] !(self.pool.contains(x) && self.winners.contains(x))
        &&& self.winners.len() <= self.cfg.max_winners
        &&& (self.armed() <==> self.entrants.len() >= self.cfg.min_participants)
        &&& self.entrants.len() <= u64::MAX
    }
}

/// The initial state is well-formed for any usable configuration.
pub proof fn lemma_initial_wf(beneficiary: AccountId, cfg: Config)
    requires
        cfg.wf(),
    ensures
        Model::initial(beneficiary, cfg).wf(),
{
    let m = Model::initial(beneficiary, cfg);
    assert(forall|x: AccountId| #![auto] !m.entrants.contains(x));
    assert(forall|x: AccountId| #![auto] !m.pool.contains(x));
    assert(forall|x: AccountId| #![auto] !m.winners.contains(x));
}

/// `play` preserves well-formedness.
pub proof fn lemma_play_preserves_wf(m: Model, caller: AccountId, amount: u128, now: u64)
    requires
        m.wf(),
    ensures
        m.play_next(caller, amount, now).wf(),
{
    if m.play_result(caller, amount, now) is Ok {
        let m2 = m.play_next(caller, amount, now);
        assert(!m.entrants.contains(caller));
        assert(!m.pool.contains(caller));
        assert(!m.winners.contains(caller));
        lemma_push_keeps_no_duplicates(m.entrants, caller);
        lemma_push_keeps_no_duplicates(m.pool, caller);
        assert forall|x: AccountId| #![auto]
            m2.entrants.contains(x) <==> (m2.pool.contains(x) || m2.winners.contains(x)) by {
            lemma_push_contains(m.entrants, caller, x);
            lemma_push_contains(m.pool, caller, x);
        }
        assert forall|x: AccountId| #![auto] !(m2.pool.contains(x) && m2.winners.contains(x)) by {
            lemma_push_contains(m.pool, caller, x);
        }
    }
}

/// `draw` preserves well-formedness.
pub proof fn lemma_draw_preserves_wf(m: Model, now: u64, rand: u64)
    requires
        m.wf(),
    ensures
        m.draw_next(now, rand).wf(),
{
    if m.draw_result(now) is Ok {
        let m2 = m.draw_next(now, rand);
        assert(m.winners.len() < m.cfg.max_winners);
        assert(m.pool.len() > 0);
        let i = m.winner_index(rand);
        assert(0 <= i < m.pool.len());
        let w = m.pool[i];
        assert(m.pool.contains(w));
        assert(!m.winners.contains(w));
        lemma_swap_remove_facts(m.pool, i);
        lemma_push_keeps_no_duplicates(m.winners, w);
        assert forall|x: AccountId| #![auto]
            m2.entrants.contains(x) <==> (m2.pool.contains(x) || m2.winners.contains(x)) by {
            lemma_push_contains(m.winners, w, x);
        }
        assert forall|x: AccountId| #![auto] !(m2.pool.contains(x) && m2.winners.contains(x)) by {
            lemma_push_contains(m.winners, w, x);
        }
    }
}

} // verus!
