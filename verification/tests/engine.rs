use charity_raffle::AccountId;
use charity_raffle::Config;
use charity_raffle::Error;
use charity_raffle::Raffle;

fn test_config() -> Config {
    Config {
        min_entry: 10,
        max_entry: 100,
        min_participants: 5,
        max_winners: 2,
        countdown_duration: 60,
    }
}

fn entropy_with_sum(sum: u8) -> [u8; 32] {
    let mut e = [0u8; 32];
    e[0] = sum;
    e
}

#[test]
fn config_validity() {
    assert!(test_config().is_valid());
    let mut c = test_config();
    c.max_winners = 0;
    assert!(!c.is_valid());
    let mut c = test_config();
    c.max_winners = 6;
    assert!(!c.is_valid());
    let mut c = test_config();
    c.min_entry = 101;
    assert!(!c.is_valid());
}

#[test]
fn fresh_engine_state() {
    let r = Raffle::new(AccountId(99), test_config());
    assert_eq!(r.get_beneficiary_id(), AccountId(99));
    assert_eq!(r.participants(), 0);
    assert_eq!(r.participants_counter(), 0);
    assert_eq!(r.get_amount_collected(), 0);
    assert_eq!(r.get_start(), 0);
    assert_eq!(r.get_end(), 0);
    assert_eq!(r.get_winners_drawn(), 0);
    assert!(!r.finished());
    assert_eq!(r.winners_address(), (None, None));
    assert_eq!(r.get_winners(), vec![None, None]);
}

#[test]
fn five_players_two_winners() {
    let beneficiary = AccountId(99);
    let mut r = Raffle::new(beneficiary, test_config());

    for i in 1..=5u64 {
        let out = r.play(AccountId(i), 50, i - 1).expect("entry in bounds must be accepted");
        assert_eq!(out.play.player, AccountId(i));
        if i < 5 {
            assert!(out.countdown_started.is_none());
            assert_eq!(r.get_start(), 0);
        } else {
            let armed = out.countdown_started.expect("fifth entry arms the countdown");
            assert_eq!(armed.player, AccountId(5));
            assert_eq!(armed.timestamp, 4);
        }
    }
    assert_eq!(r.participants_counter(), 5);
    assert_eq!(r.participants(), 5);
    assert_eq!(r.get_amount_collected(), 250);
    assert_eq!(r.get_start(), 4);
    assert_eq!(r.get_end(), 64);

    // Before the deadline no draw succeeds.
    assert!(matches!(r.draw(10, &entropy_with_sum(0)), Err(Error::CountDownNotStarted)));
    assert!(matches!(r.draw(63, &entropy_with_sum(0)), Err(Error::CountDownNotStarted)));
    assert_eq!(r.get_winners_drawn(), 0);

    // At the deadline the first draw succeeds: entropy sum 0 selects pool
    // position 0, which holds the first entrant.
    let out1 = r.draw(64, &entropy_with_sum(0)).expect("first draw at the deadline");
    assert_eq!(out1.draw.winner, AccountId(1));
    assert!(out1.payout.is_none());
    assert_eq!(r.get_winners_drawn(), 1);
    assert_eq!(r.participants(), 4);
    assert_eq!(r.participants_counter(), 5);

    // The pool is now [5, 2, 3, 4] (swap-remove moved the last entrant
    // into position 0); entropy sum 1 selects position 1 % 4 = 1.
    let out2 = r.draw(65, &entropy_with_sum(1)).expect("second draw");
    assert_eq!(out2.draw.winner, AccountId(2));
    let payout = out2.payout.expect("final draw carries the payout");
    assert_eq!(payout.to, beneficiary);
    assert_eq!(payout.amount, 250);
    assert_eq!(r.get_winners_drawn(), 2);
    assert!(r.finished());
    assert_eq!(r.winners_address(), (Some(AccountId(1)), Some(AccountId(2))));
    assert_eq!(r.get_winners(), vec![Some(AccountId(1)), Some(AccountId(2))]);

    // Finished is terminal: every further call fails with Finished.
    assert!(matches!(r.draw(100, &entropy_with_sum(7)), Err(Error::Finished)));
    assert!(matches!(r.play(AccountId(6), 50, 100), Err(Error::Finished)));
    assert_eq!(r.participants_counter(), 5);
    assert_eq!(r.get_amount_collected(), 250);
}

#[test]
fn entry_amount_bounds() {
    let mut r = Raffle::new(AccountId(99), test_config());
    assert!(matches!(r.play(AccountId(1), 9, 0), Err(Error::InvalidEntryAmount)));
    assert!(matches!(r.play(AccountId(1), 101, 0), Err(Error::InvalidEntryAmount)));
    assert_eq!(r.participants_counter(), 0);
    assert_eq!(r.get_amount_collected(), 0);
    // The bounds are inclusive on both ends.
    assert!(r.play(AccountId(1), 10, 0).is_ok());
    assert!(r.play(AccountId(2), 100, 0).is_ok());
    assert_eq!(r.get_amount_collected(), 110);
}

#[test]
fn duplicate_entry_refused() {
    let mut r = Raffle::new(AccountId(99), test_config());
    assert!(r.play(AccountId(1), 50, 0).is_ok());
    assert!(matches!(r.play(AccountId(1), 60, 1), Err(Error::HasPlayed)));
    assert_eq!(r.participants_counter(), 1);
    assert_eq!(r.get_amount_collected(), 50);
}

#[test]
fn entry_closes_at_deadline() {
    let mut r = Raffle::new(AccountId(99), test_config());
    for i in 1..=5u64 {
        assert!(r.play(AccountId(i), 50, 0).is_ok());
    }
    // Armed at 0, duration 60: an entry before the deadline is accepted,
    // one at or past it is refused.
    assert!(r.play(AccountId(6), 50, 59).is_ok());
    assert!(matches!(r.play(AccountId(7), 50, 60), Err(Error::Finished)));
    assert!(matches!(r.play(AccountId(7), 50, 61), Err(Error::Finished)));
    assert_eq!(r.participants_counter(), 6);
}

#[test]
fn draw_before_arming_refused() {
    let mut r = Raffle::new(AccountId(99), test_config());
    assert!(matches!(r.draw(1000, &entropy_with_sum(0)), Err(Error::CountDownNotStarted)));
    assert!(r.play(AccountId(1), 50, 0).is_ok());
    assert!(matches!(r.draw(1000, &entropy_with_sum(0)), Err(Error::CountDownNotStarted)));
    assert_eq!(r.get_winners_drawn(), 0);
}

#[test]
fn countdown_start_never_changes() {
    let mut r = Raffle::new(AccountId(99), test_config());
    for i in 1..=5u64 {
        assert!(r.play(AccountId(i), 50, 7).is_ok());
    }
    assert_eq!(r.get_start(), 7);
    assert!(r.play(AccountId(6), 50, 20).is_ok());
    assert_eq!(r.get_start(), 7);
    assert_eq!(r.get_end(), 67);
    assert!(r.draw(67, &entropy_with_sum(0)).is_ok());
    assert_eq!(r.get_start(), 7);
}

#[test]
fn collected_amount_overflow_refused() {
    let cfg = Config {
        min_entry: 1,
        max_entry: u128::MAX,
        min_participants: 5,
        max_winners: 2,
        countdown_duration: 60,
    };
    let mut r = Raffle::new(AccountId(99), cfg);
    assert!(r.play(AccountId(1), u128::MAX, 0).is_ok());
    assert!(matches!(r.play(AccountId(2), 1, 0), Err(Error::Overflow)));
    assert_eq!(r.participants_counter(), 1);
    assert_eq!(r.get_amount_collected(), u128::MAX);
}

#[test]
fn winner_selection_wraps_modulo_pool() {
    let mut r = Raffle::new(AccountId(99), test_config());
    for i in 1..=5u64 {
        assert!(r.play(AccountId(i), 50, 0).is_ok());
    }
    // Entropy sum 7 reduced modulo pool size 5 selects position 2.
    let out = r.draw(60, &entropy_with_sum(7)).expect("draw after deadline");
    assert_eq!(out.draw.winner, AccountId(3));
    // Winners never repeat: the remaining pool is [1, 2, 5, 4] and a
    // second entropy sum 7 selects position 3 there.
    let out = r.draw(60, &entropy_with_sum(7)).expect("second draw");
    assert_eq!(out.draw.winner, AccountId(4));
    assert_ne!(
        r.winners_address().0,
        r.winners_address().1,
        "the two winners must be distinct"
    );
}

#[test]
fn accounting_over_mixed_calls() {
    let mut r = Raffle::new(AccountId(99), test_config());
    let amounts = [10u128, 100, 37, 55, 23];
    for (i, a) in amounts.iter().enumerate() {
        assert!(r.play(AccountId(i as u64 + 1), *a, 0).is_ok());
    }
    // Rejected calls change nothing: out of bounds, duplicate.
    assert!(r.play(AccountId(8), 9, 0).is_err());
    assert!(r.play(AccountId(3), 50, 0).is_err());
    assert_eq!(r.participants_counter(), 5);
    assert_eq!(r.get_amount_collected(), 10 + 100 + 37 + 55 + 23);
}

#[test]
fn payout_covers_entries_during_countdown() {
    let beneficiary = AccountId(99);
    let mut r = Raffle::new(beneficiary, test_config());
    for i in 1..=5u64 {
        assert!(r.play(AccountId(i), 50, 0).is_ok());
    }
    // A sixth entry during the countdown raises the pot.
    assert!(r.play(AccountId(6), 30, 10).is_ok());
    assert!(r.draw(60, &entropy_with_sum(0)).is_ok());
    let out = r.draw(61, &entropy_with_sum(0)).expect("final draw");
    let payout = out.payout.expect("final draw pays");
    assert_eq!(payout.to, beneficiary);
    assert_eq!(payout.amount, 280);
}

#[test]
fn winners_padded_with_none() {
    let mut r = Raffle::new(AccountId(99), test_config());
    for i in 1..=5u64 {
        assert!(r.play(AccountId(i), 50, 0).is_ok());
    }
    assert!(r.draw(60, &entropy_with_sum(0)).is_ok());
    assert_eq!(r.get_winners(), vec![Some(AccountId(1)), None]);
    assert_eq!(r.winners_address(), (Some(AccountId(1)), Some(AccountId(1))));
}
