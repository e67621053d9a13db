//! The engine's global laws, stated over the model and proved once and
//! for all: they hold across every sequence of calls.

use vstd::prelude::*;

use crate::model::AccountId;
use crate::model::Config;
use crate::model::Error;
use crate::model::Model;
use crate::model::lemma_draw_preserves_wf;
use crate::model::lemma_initial_wf;
use crate::model::lemma_play_preserves_wf;

verus! {

/// One external call to the engine, with the host facts it carries: a
/// `play` with caller, amount and timestamp, or a `draw` with timestamp
/// and entropy value.
pub enum Act {
    Play(AccountId, u128, u64),
    Draw(u64, u64),
}

/// The state after one call.
pub open spec fn step(m: Model, a: Act) -> Model {
    match a {
        Act::Play(caller, amount, now) => m.play_next(caller, amount, now),
        Act::Draw(now, rand) => m.draw_next(now, rand),
    }
}

/// The state after a sequence of calls.
pub open spec fn run(m: Model, acts: Seq<Act>) -> Model
    decreases acts.len(),
{
    if acts.len() == 0 {
        m
    } else {
        run(step(m, acts[0]), acts.drop_first())
    }
}

/// One call preserves well-formedness.
pub proof fn lemma_step_preserves_wf(m: Model, a: Act)
    requires
        m.wf(),
    ensures
        step(m, a).wf(),
{
    match a {
        Act::Play(caller, amount, now) => lemma_play_preserves_wf(m, caller, amount, now),
        Act::Draw(now, rand) => lemma_draw_preserves_wf(m, now, rand),
    }
}

/// Any sequence of calls preserves well-formedness.
pub proof fn lemma_run_preserves_wf(m: Model, acts: Seq<Act>)
    requires
        m.wf(),
    ensures
        run(m, acts).wf(),
    decreases acts.len(),
{
    if acts.len() > 0 {
        lemma_step_preserves_wf(m, acts[0]);
        lemma_run_preserves_wf(step(m, acts[0]), acts.drop_first());
    }
}

/// No identity appears twice in the participant pool or the winner list,
/// and never in both, after any sequence of calls on a fresh engine.
pub proof fn lemma_no_duplicate_identities(beneficiary: AccountId, cfg: Config, acts: Seq<Act>)
    requires
        cfg.wf(),
    ensures
        run(Model::initial(beneficiary, cfg), acts).pool.no_duplicates(),
        run(Model::initial(beneficiary, cfg), acts).winners.no_duplicates(),
        forall|x: AccountId| #![auto]
            !(run(Model::initial(beneficiary, cfg), acts).pool.contains(x) && run(
                Model::initial(beneficiary, cfg),
                acts,
            ).winners.contains(x)),
{
    lemma_initial_wf(beneficiary, cfg);
    lemma_run_preserves_wf(Model::initial(beneficiary, cfg), acts);
}

/// Once the countdown is armed, no sequence of calls ever changes its
/// start; together with arming being the only `None` to `Some`
/// transition, the countdown arms at most once.
pub proof fn lemma_countdown_start_stable(m: Model, acts: Seq<Act>)
    requires
        m.armed(),
    ensures
        run(m, acts).start == m.start,
    decreases acts.len(),
{
    if acts.len() > 0 {
        let m2 = step(m, acts[0]);
        assert(m2.start == m.start);
        lemma_countdown_start_stable(m2, acts.drop_first());
    }
}

/// The countdown is armed exactly when the registry has reached the
/// configured minimum, after any sequence of calls on a fresh engine;
/// with `lemma_countdown_start_stable` this says the countdown arms
/// exactly once, at the entry that reaches the minimum.
pub proof fn lemma_arming_tracks_minimum(beneficiary: AccountId, cfg: Config, acts: Seq<Act>)
    requires
        cfg.wf(),
    ensures
        run(Model::initial(beneficiary, cfg), acts).armed() <==> run(
            Model::initial(beneficiary, cfg),
            acts,
        ).entrants.len() >= cfg.min_participants,
{
    lemma_initial_wf(beneficiary, cfg);
    lemma_run_preserves_wf(Model::initial(beneficiary, cfg), acts);
    assert(run(Model::initial(beneficiary, cfg), acts).cfg == cfg) by {
        lemma_config_fixed(Model::initial(beneficiary, cfg), acts);
    }
}

/// Neither `play` nor `draw` ever changes the configuration or the
/// beneficiary.
pub proof fn lemma_config_fixed(m: Model, acts: Seq<Act>)
    ensures
        run(m, acts).cfg == m.cfg,
        run(m, acts).beneficiary == m.beneficiary,
    decreases acts.len(),
{
    if acts.len() > 0 {
        lemma_config_fixed(step(m, acts[0]), acts.drop_first());
    }
}

/// The participant check in `draw` is defensive only: in a well-formed
/// state it never fires, because an armed countdown already guarantees
/// the registry holds the minimum.
pub proof fn lemma_pool_check_is_defensive(m: Model, now: u64)
    requires
        m.wf(),
    ensures
        m.draw_result(now) != Err::<(), Error>(Error::NotEnoughPlayer),
{
}

/// A draw can only succeed when a countdown is armed and its deadline —
/// the start plus the configured duration — has passed.
pub proof fn lemma_draw_waits_for_deadline(m: Model, now: u64)
    ensures
        m.draw_result(now) is Ok ==> m.armed() && now >= m.start.unwrap()
            + m.cfg.countdown_duration,
{
}

/// A finished raffle is terminal: every further `play` and `draw` is
/// refused with `Finished`, and no sequence of calls changes the state —
/// in particular the collected amount and the winner list are frozen.
pub proof fn lemma_finished_is_terminal(m: Model, acts: Seq<Act>)
    requires
        m.finished(),
    ensures
        run(m, acts) == m,
        forall|caller: AccountId, amount: u128, now: u64| #![auto]
            m.play_result(caller, amount, now) == Err::<(), Error>(Error::Finished),
        forall|now: u64| #![auto] m.draw_result(now) == Err::<(), Error>(Error::Finished),
    decreases acts.len(),
{
    if acts.len() > 0 {
        assert(step(m, acts[0]) == m);
        lemma_finished_is_terminal(m, acts.drop_first());
        assert(run(m, acts) == run(step(m, acts[0]), acts.drop_first()));
    }
}

/// How many calls in a sequence carry the payout instruction.
pub open spec fn payouts(m: Model, acts: Seq<Act>) -> int
    decreases acts.len(),
{
    if acts.len() == 0 {
        0
    } else {
        (match acts[0] {
            Act::Draw(now, _) => if m.draw_pays(now) {
                1int
            } else {
                0int
            },
            _ => 0int,
        }) + payouts(step(m, acts[0]), acts.drop_first())
    }
}

/// The summed amounts of the payout instructions carried over a sequence
/// of calls; each paying draw carries the collected amount of the state
/// it is drawn from.
pub open spec fn paid_total(m: Model, acts: Seq<Act>) -> int
    decreases acts.len(),
{
    if acts.len() == 0 {
        0
    } else {
        (match acts[0] {
            Act::Draw(now, _) => if m.draw_pays(now) {
                m.collected as int
            } else {
                0int
            },
            _ => 0int,
        }) + paid_total(step(m, acts[0]), acts.drop_first())
    }
}

/// A finished raffle never pays again.
pub proof fn lemma_finished_never_pays(m: Model, acts: Seq<Act>)
    requires
        m.finished(),
    ensures
        payouts(m, acts) == 0,
        paid_total(m, acts) == 0,
    decreases acts.len(),
{
    if acts.len() > 0 {
        assert(step(m, acts[0]) == m);
        lemma_finished_never_pays(m, acts.drop_first());
    }
}

/// The payout is carried at most once over any sequence of calls: it
/// accompanies exactly the draw that completes the winner list, and that
/// state is terminal.
pub proof fn lemma_payout_at_most_once(m: Model, acts: Seq<Act>)
    requires
        m.wf(),
    ensures
        payouts(m, acts) <= 1,
    decreases acts.len(),
{
    if acts.len() > 0 {
        let m2 = step(m, acts[0]);
        lemma_step_preserves_wf(m, acts[0]);
        match acts[0] {
            Act::Draw(now, _) => {
                if m.draw_pays(now) {
                    assert(m2.finished());
                    lemma_finished_never_pays(m2, acts.drop_first());
                } else {
                    lemma_payout_at_most_once(m2, acts.drop_first());
                }
            },
            _ => {
                lemma_payout_at_most_once(m2, acts.drop_first());
            },
        }
    }
}

/// The beneficiary is owed the collected amount exactly once: over any
/// sequence of calls, if a payout is carried it is carried once, and its
/// amount is exactly the collected amount of the final state — nothing
/// more is ever collected after the paying draw.
pub proof fn lemma_payout_is_final_amount(m: Model, acts: Seq<Act>)
    requires
        m.wf(),
    ensures
        payouts(m, acts) == 1 ==> paid_total(m, acts) == run(m, acts).collected,
        payouts(m, acts) == 0 ==> paid_total(m, acts) == 0,
    decreases acts.len(),
{
    if acts.len() > 0 {
        let m2 = step(m, acts[0]);
        lemma_step_preserves_wf(m, acts[0]);
        match acts[0] {
            Act::Draw(now, _) => {
                if m.draw_pays(now) {
                    assert(m2.finished());
                    assert(m2.collected == m.collected);
                    lemma_finished_never_pays(m2, acts.drop_first());
                    lemma_finished_is_terminal(m2, acts.drop_first());
                } else {
                    lemma_payout_is_final_amount(m2, acts.drop_first());
                }
            },
            _ => {
                lemma_payout_is_final_amount(m2, acts.drop_first());
            },
        }
    }
}

/// The selected winner always comes from the current pool, never from the
/// winners already drawn, and leaves the pool as it is drawn.
pub proof fn lemma_winner_selection(m: Model, now: u64, rand: u64)
    requires
        m.wf(),
        m.draw_result(now) is Ok,
    ensures
        m.pool.contains(m.drawn_winner(rand)),
        !m.winners.contains(m.drawn_winner(rand)),
        m.draw_next(now, rand).winners == m.winners.push(m.drawn_winner(rand)),
        !m.draw_next(now, rand).pool.contains(m.drawn_winner(rand)),
{
    assert(m.winners.len() < m.cfg.max_winners);
    assert(m.pool.len() > 0);
    let i = m.winner_index(rand);
    assert(0 <= i < m.pool.len());
    assert(m.pool.contains(m.pool[i]));
    crate::seq_facts::lemma_swap_remove_facts(m.pool, i);
}

/// The state after a sequence of `play` calls alone.
pub open spec fn run_plays(m: Model, calls: Seq<(AccountId, u128, u64)>) -> Model
    decreases calls.len(),
{
    if calls.len() == 0 {
        m
    } else {
        run_plays(m.play_next(calls[0].0, calls[0].1, calls[0].2), calls.drop_first())
    }
}

/// How many of the `play` calls are accepted.
pub open spec fn accepted_count(m: Model, calls: Seq<(AccountId, u128, u64)>) -> int
    decreases calls.len(),
{
    if calls.len() == 0 {
        0
    } else {
        (if m.play_result(calls[0].0, calls[0].1, calls[0].2) is Ok {
            1int
        } else {
            0int
        }) + accepted_count(m.play_next(calls[0].0, calls[0].1, calls[0].2), calls.drop_first())
    }
}

/// The summed amounts of the accepted `play` calls.
pub open spec fn accepted_sum(m: Model, calls: Seq<(AccountId, u128, u64)>) -> int
    decreases calls.len(),
{
    if calls.len() == 0 {
        0
    } else {
        (if m.play_result(calls[0].0, calls[0].1, calls[0].2) is Ok {
            calls[0].1 as int
        } else {
            0int
        }) + accepted_sum(m.play_next(calls[0].0, calls[0].1, calls[0].2), calls.drop_first())
    }
}

/// Entry bookkeeping: over any sequence of `play` calls, the participant
/// count grows by exactly the number of accepted calls and the collected
/// amount by exactly the sum of their amounts.
pub proof fn lemma_entry_accounting(m: Model, calls: Seq<(AccountId, u128, u64)>)
    ensures
        run_plays(m, calls).entrants.len() == m.entrants.len() + accepted_count(m, calls),
        run_plays(m, calls).collected == m.collected + accepted_sum(m, calls),
        run_plays(m, calls).pool.len() == m.pool.len() + accepted_count(m, calls),
    decreases calls.len(),
{
    if calls.len() > 0 {
        let m2 = m.play_next(calls[0].0, calls[0].1, calls[0].2);
        lemma_entry_accounting(m2, calls.drop_first());
    }
}

} // verus!
