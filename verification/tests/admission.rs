use crown_relay::admission::{admit_call, budget_ok, charge, rate_ok, Admit, Budgets, Limits, Window};
use crown_relay::budget_map::BudgetMap;
use crown_relay::principal::Principal;

const FLOOR: u128 = 1_000_000_000_000;
const PRICE: u128 = 10_000_000_000;
const SIGN: u128 = 26_000_000_000;
const BURST_WINDOW: u64 = 60_000_000_000; // 60s in ns
const DAY: u64 = 86_400_000_000_000; // 24h in ns

/// Three ingests per burst, ten per day: small enough to hit both edges.
fn limits() -> Limits {
    Limits {
        burst_window_ns: BURST_WINDOW,
        burst_budget: PRICE * 3,
        daily_window_ns: DAY,
        daily_budget: PRICE * 10,
    }
}

fn key(b: u8) -> Principal {
    Principal::from_slice(&[b; 10])
}

#[test]
fn budget_floor_is_respected() {
    assert!(budget_ok(FLOOR + PRICE, FLOOR, PRICE));
    assert!(!budget_ok(FLOOR + PRICE - 1, FLOOR, PRICE));
    // A price near u128::MAX cannot wrap the floor under it.
    assert!(!budget_ok(FLOOR, FLOOR, u128::MAX));
}

#[test]
fn burst_window_caps_then_rolls() {
    let mut b = BudgetMap::new();
    let (k, l) = (key(1), limits());
    for _ in 0..3 {
        assert_eq!(rate_ok(&mut b, k, 0, &l, PRICE), Admit::Admitted);
    }
    // The next submit in the same burst window is capped.
    assert_eq!(rate_ok(&mut b, k, 10, &l, PRICE), Admit::RateLimited);
    // A different key has its own budgets.
    assert_eq!(rate_ok(&mut b, key(2), 10, &l, PRICE), Admit::Admitted);
    // Once the burst window rolls, the first key is let in again.
    assert_eq!(rate_ok(&mut b, k, BURST_WINDOW, &l, PRICE), Admit::Admitted);
}

/// The point of the daily window: a key that paces itself under the burst cap
/// still cannot spend more than its day.
#[test]
fn a_paced_key_still_runs_out_of_day() {
    let mut b = BudgetMap::new();
    let (k, l) = (key(1), limits());
    // One submit per burst window, always under the burst cap.
    for i in 0..10u64 {
        let now = i.saturating_mul(BURST_WINDOW);
        assert_eq!(rate_ok(&mut b, k, now, &l, PRICE), Admit::Admitted, "submit {i}");
    }
    // The 11th is refused by the daily budget, not the burst one.
    let now = 10u64.saturating_mul(BURST_WINDOW);
    assert_eq!(
        rate_ok(&mut b, k, now, &l, PRICE),
        Admit::KeyBudgetExhausted
    );
    // It clears only when the day rolls.
    assert_eq!(rate_ok(&mut b, k, DAY, &l, PRICE), Admit::Admitted);
}

/// Budgets are in cycles, so a `Sign` costs what a `Sign` costs: a key cannot get
/// more value out of its day by picking the pricier call.
#[test]
fn a_sign_draws_its_real_price_not_one_token() {
    let mut b = BudgetMap::new();
    let l = Limits {
        burst_budget: SIGN * 10, // burst out of the way; test the day
        ..limits()
    };
    let k = key(1);
    // daily_budget = 10·PRICE = 100e9 → three signs (78e9) fit, a fourth does not.
    for i in 0..3 {
        assert_eq!(rate_ok(&mut b, k, 0, &l, SIGN), Admit::Admitted, "sign {i}");
    }
    assert_eq!(rate_ok(&mut b, k, 0, &l, SIGN), Admit::KeyBudgetExhausted);
    // The remaining 22e9 is still spendable on cheaper calls.
    assert_eq!(rate_ok(&mut b, k, 0, &l, PRICE), Admit::Admitted);
}

/// A submit refused by the daily budget must not have already been billed to the
/// burst window: otherwise a key rejected all day would also lose its burst
/// allowance for calls it never made.
#[test]
fn a_rejected_submit_charges_neither_window() {
    let mut b = BudgetMap::new();
    let (k, l) = (key(1), limits());
    // Spend the whole day, paced one submit per burst window so the burst cap is
    // never the binding constraint.
    for i in 0..10u64 {
        let now = i.saturating_mul(BURST_WINDOW);
        assert_eq!(rate_ok(&mut b, k, now, &l, PRICE), Admit::Admitted, "submit {i}");
    }
    let now = 10u64.saturating_mul(BURST_WINDOW);
    let before = b.get(k);
    assert!(before.is_some());
    assert_eq!(
        rate_ok(&mut b, k, now, &l, PRICE),
        Admit::KeyBudgetExhausted
    );
    assert_eq!(b.get(k), before, "a refused submit must cost the key nothing");
}

#[test]
fn admit_orders_allowlist_then_relay_floor_then_key_budgets() {
    let mut b = BudgetMap::new();
    let (k, l) = (key(1), limits());
    let funded = FLOOR + PRICE;

    // Not allowlisted → rejected without touching any budget.
    assert_eq!(
        admit_call(false, &mut b, k, 0, &l, funded, FLOOR, PRICE),
        Admit::NotAllowed
    );
    assert!(b.is_empty(), "a stranger must not touch the budget map");

    // Relay below floor+price → LowBudget, and the key is not charged for a submit
    // the relay could not afford to make.
    assert_eq!(
        admit_call(true, &mut b, k, 0, &l, FLOOR, FLOOR, PRICE),
        Admit::LowBudget
    );
    assert!(b.is_empty(), "LowBudget must not consume the key's day");

    // Allowlisted + funded → let in up to the burst cap, then RateLimited.
    for _ in 0..3 {
        assert_eq!(
            admit_call(true, &mut b, k, 0, &l, funded, FLOOR, PRICE),
            Admit::Admitted
        );
    }
    assert_eq!(
        admit_call(true, &mut b, k, 0, &l, funded, FLOOR, PRICE),
        Admit::RateLimited
    );
}

#[test]
fn the_sum_of_floor_and_price_saturates() {
    assert!(budget_ok(u128::MAX, 1, u128::MAX));
    assert!(!budget_ok(u128::MAX - 1, 1, u128::MAX));
    assert!(budget_ok(0, 0, 0));
}

#[test]
fn a_charge_rolls_an_old_window_even_when_it_does_not_fit() {
    let mut w = Window { start: 0, spent: 7 };
    assert!(!charge(&mut w, 100, 100, 5, 6));
    assert_eq!(w, Window { start: 100, spent: 0 });
    assert!(charge(&mut w, 199, 100, 5, 5));
    assert_eq!(w, Window { start: 100, spent: 5 });
    assert!(!charge(&mut w, 199, 100, 5, 1));
    assert_eq!(w, Window { start: 100, spent: 5 });
}

#[test]
fn a_clock_that_runs_backwards_rolls_no_window() {
    let mut w = Window { start: 100, spent: 3 };
    assert!(charge(&mut w, 0, 50, 5, 2));
    assert_eq!(w, Window { start: 100, spent: 5 });
}

#[test]
fn an_absurd_price_does_not_wrap_the_counter() {
    let mut w = Window { start: 0, spent: 3 };
    assert!(!charge(&mut w, 0, 50, 5, u128::MAX));
    assert_eq!(w, Window { start: 0, spent: 3 });
    // Only the largest cap there is has room for a saturated sum.
    assert!(charge(&mut w, 0, 50, u128::MAX, u128::MAX));
    assert_eq!(w, Window { start: 0, spent: u128::MAX });
}

#[test]
fn a_rejected_new_key_is_recorded_with_unused_budgets() {
    let mut b = BudgetMap::new();
    assert_eq!(b.get(key(1)), None);
    assert_eq!(
        rate_ok(&mut b, key(1), DAY, &limits(), PRICE * 4),
        Admit::RateLimited
    );
    assert_eq!(b.get(key(1)), Some(Budgets::default()));
    assert_eq!(Budgets::default().burst, Window::default());
    assert_eq!(Window::default(), Window { start: 0, spent: 0 });
}

#[test]
fn a_granted_call_is_charged_to_both_windows() {
    let mut b = BudgetMap::new();
    assert_eq!(rate_ok(&mut b, key(1), DAY, &limits(), PRICE), Admit::Admitted);
    let w = Window { start: DAY, spent: PRICE };
    assert_eq!(b.get(key(1)), Some(Budgets { burst: w, daily: w }));
    // The burst rolls, the day goes on.
    let now = DAY + BURST_WINDOW;
    assert_eq!(rate_ok(&mut b, key(1), now, &limits(), PRICE), Admit::Admitted);
    assert_eq!(
        b.get(key(1)),
        Some(Budgets {
            burst: Window { start: now, spent: PRICE },
            daily: Window { start: DAY, spent: PRICE * 2 },
        })
    );
}

/// In one day the granted prices add up to the daily budget at most, whatever is
/// asked for.
#[test]
fn a_day_never_adds_up_to_more_than_its_budget() {
    let mut b = BudgetMap::new();
    let l = limits();
    let mut moved = 0;
    for i in 0..1_000u64 {
        let price = PRICE * u128::from(i % 4) + 1;
        let now = DAY + i * (BURST_WINDOW / 2);
        if rate_ok(&mut b, key(1), now, &l, price) == Admit::Admitted {
            moved += price;
        }
    }
    assert!(moved <= l.daily_budget);
    assert!(moved > l.daily_budget - PRICE);
}

/// Two days can meet: a key may spend the end of one and the start of the next.
#[test]
fn a_key_may_spend_two_days_back_to_back() {
    let mut b = BudgetMap::new();
    let l = Limits {
        burst_budget: PRICE * 10,
        ..limits()
    };
    assert_eq!(rate_ok(&mut b, key(1), DAY, &l, 0), Admit::Admitted);
    assert_eq!(
        rate_ok(&mut b, key(1), 2 * DAY - 1, &l, PRICE * 10),
        Admit::Admitted
    );
    assert_eq!(
        rate_ok(&mut b, key(1), 2 * DAY, &l, PRICE * 10),
        Admit::RateLimited
    );
    assert_eq!(
        rate_ok(&mut b, key(1), 2 * DAY - 1 + BURST_WINDOW, &l, PRICE * 10),
        Admit::Admitted
    );
}
