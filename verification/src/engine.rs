//! The executable raffle engine.
//!
//! Every host-environment fact (caller identity, attached value, current
//! timestamp, entropy bytes) comes in as an argument; every outward
//! action (notifications to emit, the payout to transfer) goes out in the
//! returned value.  The host performs the actions; the engine decides.

use vstd::prelude::*;

use crate::entropy::encode_words_le;
use crate::entropy::keccak_256;
use crate::entropy::keccak_of;
use crate::entropy::le_concat;
use crate::entropy::rand_from_bytes;
use crate::entropy::sum_bytes;
use crate::model::AccountId;
use crate::model::Config;
use crate::model::Error;
use crate::model::Model;
use crate::model::lemma_draw_preserves_wf;
use crate::model::lemma_initial_wf;
use crate::model::lemma_play_preserves_wf;

verus! {

/// The deterministic encoding of engine state that seeds the host's
/// entropy source: the little-endian bytes of the call timestamp, the
/// countdown start and deadline as the accessors report them, the
/// participant counter, and the draw counter.
pub open spec fn seed_material_of(m: Model, now: u64) -> Seq<u8> {
    le_concat(
        seq![
            now,
            m.start_or_zero(),
            m.end_or_zero(),
            m.entrants.len() as u64,
            m.winners.len() as u64,
        ],
    )
}

/// Notification: an entry was accepted.
#[derive(Clone, Copy, PartialEq, Eq, Structural, Debug)]
pub struct Play {
    pub player: AccountId,
}

/// Notification: a winner was drawn.
#[derive(Clone, Copy, PartialEq, Eq, Structural, Debug)]
pub struct Draw {
    pub winner: AccountId,
}

/// Notification: the countdown was armed by this entry.
#[derive(Clone, Copy, PartialEq, Eq, Structural, Debug)]
pub struct CountDownStarted {
    pub player: AccountId,
    pub timestamp: u64,
}

/// A transfer the host must perform on the ledger.
#[derive(Clone, Copy, Debug)]
pub struct Payout {
    pub to: AccountId,
    pub amount: u128,
}

/// What a successful `play` asks of the host: the notifications to emit.
#[derive(Clone, Copy, Debug)]
pub struct PlayOutcome {
    pub play: Play,
    pub countdown_started: Option<CountDownStarted>,
}

/// What a successful `draw` asks of the host: the notification to emit
/// and, at the final draw, the payout to transfer.  If the transfer
/// fails, the host must discard the mutated engine state.
#[derive(Clone, Copy, Debug)]
pub struct DrawOutcome {
    pub draw: Draw,
    pub payout: Option<Payout>,
}

/// The raffle engine: all state lives here, and only `play` and `draw`
/// mutate it.
#[derive(Clone)]
pub struct Raffle {
    beneficiary: AccountId,
    config: Config,
    entrants: Vec<AccountId>,
    pool: Vec<AccountId>,
    winners: Vec<AccountId>,
    amount_collected: u128,
    start_time: Option<u64>,
}

impl View for Raffle {
    type V = Model;

    closed spec fn view(&self) -> Model {
        Model {
            beneficiary: self.beneficiary,
            entrants: self.entrants@,
            pool: self.pool@,
            winners: self.winners@,
            collected: self.amount_collected,
            start: self.start_time,
            cfg: self.config,
        }
    }
}

/// Whether a vector of identities holds the given one.
fn vec_contains(v: &Vec<AccountId>, who: AccountId) -> (r: bool)
    ensures
        r == v@.contains(who),
{
    let mut k: usize = 0;
    while k < v.len()
        invariant
            0 <= k <= v@.len(),
            forall|j: int| 0 <= j < k ==> v@[j] != who,
        decreases v@.len() - k,
    {
        if v[k] == who {
            assert(v@.contains(who));
            return true;
        }
        k = k + 1;
    }
    assert(!v@.contains(who));
    false
}

impl Raffle {
    /// Well-formedness of the engine state; established by `new` and
    /// preserved by every method.
    pub open spec fn wf(&self) -> bool {
        self@.wf()
    }

    /// Construct an engine with an empty registry, zeroed accounting, and
    /// an unarmed countdown.  The beneficiary is fixed for its lifetime.
    pub fn new(beneficiary: AccountId, config: Config) -> (r: Raffle)
        requires
            config.wf(),
        ensures
            r.wf(),
            r@ == Model::initial(beneficiary, config),
    {
        let r = Raffle {
            beneficiary,
            config,
            entrants: Vec::new(),
            pool: Vec::new(),
            winners: Vec::new(),
            amount_collected: 0,
            start_time: None,
        };
        proof {
            assert(r@.entrants =~= Model::initial(beneficiary, config).entrants);
            assert(r@.pool =~= Model::initial(beneficiary, config).pool);
            assert(r@.winners =~= Model::initial(beneficiary, config).winners);
            lemma_initial_wf(beneficiary, config);
        }
        r
    }

    /// Accept or refuse one entry.
    ///
    /// `caller` is the entering identity, `amount` the value it attached,
    /// `now` the host clock.  On success the caller joins the registry
    /// and the pool, the attached value is added to the collected total,
    /// and — when the entry first reaches the participant minimum — the
    /// countdown is armed at `now`.  Any refusal leaves the state
    /// unchanged.
    pub fn play(&mut self, caller: AccountId, amount: u128, now: u64) -> (r: Result<
        PlayOutcome,
        Error,
    >)
        requires
            old(self).wf(),
        ensures
            final(self).wf(),
            final(self)@ == old(self)@.play_next(caller, amount, now),
            r is Ok <==> old(self)@.play_result(caller, amount, now) is Ok,
            r matches Err(e) ==> old(self)@.play_result(caller, amount, now) == Err::<(), Error>(
                e,
            ),
            r matches Ok(o) ==> o.play.player == caller && (o.countdown_started is Some <==> old(
                self,
            )@.play_arms(caller, amount, now)) && (o.countdown_started matches Some(c) ==> c.player
                == caller && c.timestamp == now),
    {
        let ghost m = self@;
        proof {
            lemma_play_preserves_wf(m, caller, amount, now);
        }
        let closed = self.winners.len() as u64 >= self.config.max_winners || (match self
            .start_time {
            Some(s) => now >= s && now - s >= self.config.countdown_duration,
            None => false,
        });
        if closed {
            return Err(Error::Finished);
        }
        if amount < self.config.min_entry || amount > self.config.max_entry {
            return Err(Error::InvalidEntryAmount);
        }
        if vec_contains(&self.entrants, caller) {
            return Err(Error::HasPlayed);
        }
        if amount > u128::MAX - self.amount_collected || self.entrants.len() as u64 == u64::MAX {
            return Err(Error::Overflow);
        }
        self.entrants.push(caller);
        self.pool.push(caller);
        self.amount_collected = self.amount_collected + amount;
        let countdown_started = if self.start_time.is_none() && self.entrants.len() as u64
            >= self.config.min_participants {
            self.start_time = Some(now);
            Some(CountDownStarted { player: caller, timestamp: now })
        } else {
            None
        };
        Ok(PlayOutcome { play: Play { player: caller }, countdown_started })
    }

    /// Draw one winner, or refuse.
    ///
    /// `now` is the host clock and `entropy` the host's entropy block for
    /// this call.  On success the entropy value, reduced modulo the pool
    /// size, selects the winner, which moves from the pool to the winner
    /// list; the final draw additionally carries the payout instruction
    /// for the whole collected amount.  Any refusal leaves the state
    /// unchanged.
    pub fn draw(&mut self, now: u64, entropy: &[u8; 32]) -> (r: Result<DrawOutcome, Error>)
        requires
            old(self).wf(),
        ensures
            final(self).wf(),
            final(self)@ == old(self)@.draw_next(now, (sum_bytes(entropy@)) as u64),
            r is Ok <==> old(self)@.draw_result(now) is Ok,
            r matches Err(e) ==> old(self)@.draw_result(now) == Err::<(), Error>(e),
            r matches Ok(o) ==> o.draw.winner == old(self)@.drawn_winner(
                (sum_bytes(entropy@)) as u64,
            ) && (o.payout is Some <==> old(self)@.draw_pays(now)) && (o.payout matches Some(p)
                ==> p.to == old(self)@.beneficiary && p.amount == old(self)@.collected),
    {
        let ghost m = self@;
        proof {
            lemma_draw_preserves_wf(m, now, sum_bytes(entropy@) as u64);
        }
        if self.winners.len() as u64 >= self.config.max_winners {
            return Err(Error::Finished);
        }
        let elapsed = match self.start_time {
            Some(s) => now >= s && now - s >= self.config.countdown_duration,
            None => false,
        };
        if !elapsed {
            return Err(Error::CountDownNotStarted);
        }
        if (self.entrants.len() as u64) < self.config.min_participants {
            return Err(Error::NotEnoughPlayer);
        }
        let rand = rand_from_bytes(entropy);
        proof {
            crate::entropy::lemma_sum_bytes_bounds(entropy@);
            assert(m.pool.len() > 0);
        }
        let idx: usize = (rand as usize) % self.pool.len();
        let winner = self.pool.swap_remove(idx);
        self.winners.push(winner);
        let payout = if self.winners.len() as u64 == self.config.max_winners {
            Some(Payout { to: self.beneficiary, amount: self.amount_collected })
        } else {
            None
        };
        Ok(DrawOutcome { draw: Draw { winner }, payout })
    }

    /// The fixed payout recipient.
    pub fn get_beneficiary_id(&self) -> (r: AccountId)
        ensures
            r == self@.beneficiary,
    {
        self.beneficiary
    }

    /// How many identities are still in the pool: entered, not yet drawn.
    pub fn participants(&self) -> (r: u64)
        ensures
            r == self@.pool.len(),
    {
        self.pool.len() as u64
    }

    /// How many entries have been accepted in all, drawn winners included.
    pub fn participants_counter(&self) -> (r: u64)
        ensures
            r == self@.entrants.len(),
    {
        self.entrants.len() as u64
    }

    /// Whether all winners have been drawn.
    pub fn finished(&self) -> (r: bool)
        ensures
            r == self@.finished(),
    {
        self.winners.len() as u64 >= self.config.max_winners
    }

    /// The first and the last winner drawn so far, if any.
    pub fn winners_address(&self) -> (r: (Option<AccountId>, Option<AccountId>))
        ensures
            r.0 == (if self@.winners.len() == 0 {
                Option::<AccountId>::None
            } else {
                Some(self@.winners[0])
            }),
            r.1 == (if self@.winners.len() == 0 {
                Option::<AccountId>::None
            } else {
                Some(self@.winners.last())
            }),
    {
        if self.winners.len() == 0 {
            (None, None)
        } else {
            let first = self.winners[0];
            let last = self.winners[self.winners.len() - 1];
            (Some(first), Some(last))
        }
    }

    /// The sum of all accepted entry amounts.
    pub fn get_amount_collected(&self) -> (r: u128)
        ensures
            r == self@.collected,
    {
        self.amount_collected
    }

    /// The countdown start timestamp; zero while unarmed.
    pub fn get_start(&self) -> (r: u64)
        ensures
            r == self@.start_or_zero(),
    {
        match self.start_time {
            Some(s) => s,
            None => 0,
        }
    }

    /// The countdown deadline, saturated at the timestamp range; zero
    /// while unarmed.
    pub fn get_end(&self) -> (r: u64)
        ensures
            r == self@.end_or_zero(),
    {
        match self.start_time {
            Some(s) => if s > u64::MAX - self.config.countdown_duration {
                u64::MAX
            } else {
                s + self.config.countdown_duration
            },
            None => 0,
        }
    }

    /// How many winners have been drawn so far.
    pub fn get_winners_drawn(&self) -> (r: u64)
        ensures
            r == self@.winners.len(),
    {
        self.winners.len() as u64
    }

    /// The winner list, padded with `None` up to the configured winner
    /// count.
    pub fn get_winners(&self) -> (r: Vec<Option<AccountId>>)
        requires
            self.wf(),
        ensures
            r@.len() == self@.cfg.max_winners,
            forall|i: int| 0 <= i < self@.winners.len() ==> r@[i] == Some(self@.winners[i]),
            forall|i: int| self@.winners.len() <= i < r@.len() ==> r@[i] is None,
    {
        let mw: usize = self.config.max_winners as usize;
        let mut out: Vec<Option<AccountId>> = Vec::new();
        let mut i: usize = 0;
        while i < mw
            invariant
                0 <= i <= mw,
                mw == self@.cfg.max_winners,
                out@.len() == i,
                forall|j: int| 0 <= j < i && j < self@.winners.len() ==> out@[j] == Some(
                    self@.winners[j],
                ),
                forall|j: int| self@.winners.len() <= j < i ==> out@[j] is None,
            decreases mw - i,
        {
            if i < self.winners.len() {
                out.push(Some(self.winners[i]));
            } else {
                out.push(None);
            }
            i = i + 1;
        }
        out
    }

    /// The 32-byte seed for this call's entropy request: the Keccak-256
    /// digest of the deterministic seed material.
    pub fn seed_hash(&self, now: u64) -> (r: [u8; 32])
        ensures
            r@ == keccak_of(seed_material_of(self@, now)),
    {
        let material = self.seed_material(now);
        keccak_256(&material)
    }

    /// The deterministic seed material for this call's entropy request;
    /// see `seed_material_of` for the exact bytes.
    pub fn seed_material(&self, now: u64) -> (r: Vec<u8>)
        ensures
            r@ == seed_material_of(self@, now),
    {
        let mut words: Vec<u64> = Vec::new();
        words.push(now);
        words.push(self.get_start());
        words.push(self.get_end());
        words.push(self.participants_counter());
        words.push(self.get_winners_drawn());
        proof {
            assert(words@ =~= seq![
                now,
                self@.start_or_zero(),
                self@.end_or_zero(),
                self@.entrants.len() as u64,
                self@.winners.len() as u64,
            ]);
        }
        encode_words_le(&words)
    }
}

} // verus!
