use budgetwiser::amount::{check_amount, parse_amount, LedgerError, MAX_AMOUNT};
use budgetwiser::entry::{Budget, Entry};
use budgetwiser::ledger::{Ledger, LedgerParts};
use budgetwiser::persist::{load_state, save_plan, step_error, ReadOutcome, SaveStep};
use budgetwiser::transform::{scale_amount, IDENTITY_FACTOR};

fn s(x: &str) -> String {
    x.to_string()
}

fn total_of(summary: &[(String, i128)], key: &str) -> Option<i128> {
    summary.iter().find(|p| p.0 == key).map(|p| p.1)
}

#[test]
fn income_then_rent_and_food() {
    let mut l = Ledger::new();
    l.add_income(100_000, s("salary"), vec![], 0).unwrap();
    l.add_expense(s("rent"), 50_000, vec![], 1).unwrap();
    l.add_expense(s("food"), 15_000, vec![], 2).unwrap();
    let summary = l.summarize_by_category();
    assert_eq!(summary.len(), 2);
    assert_eq!(total_of(&summary, "rent"), Some(50_000));
    assert_eq!(total_of(&summary, "food"), Some(15_000));
    assert_eq!(l.total_expenses(), 65_000);
    assert_eq!(l.net_income(), 35_000);
    assert_eq!(l.total_income(), 100_000);
}

#[test]
fn remove_both_food_expenses() {
    let mut l = Ledger::new();
    l.add_expense(s("food"), 2_000, vec![], 0).unwrap();
    l.add_expense(s("rent"), 40_000, vec![], 0).unwrap();
    l.add_expense(s("food"), 3_000, vec![], 0).unwrap();
    assert_eq!(l.remove_expenses_by_category(&s("food")), 2);
    assert_eq!(l.total_expenses(), 40_000);
    let summary = l.summarize_by_category();
    assert_eq!(total_of(&summary, "food"), None);
    assert_eq!(total_of(&summary, "rent"), Some(40_000));
    assert_eq!(l.list_expenses().len(), 1);
    assert_eq!(l.list_expenses()[0].category, "rent");
}

#[test]
fn remove_unknown_category_is_noop() {
    let mut l = Ledger::new();
    l.add_expense(s("food"), 2_000, vec![], 0).unwrap();
    assert_eq!(l.remove_expenses_by_category(&s("Food")), 0);
    assert_eq!(l.total_expenses(), 2_000);
}

#[test]
fn clear_resets_everything() {
    let mut l = Ledger::new();
    l.add_income(5_000, s("gift"), vec![s("family")], 0).unwrap();
    l.add_expense(s("food"), 2_000, vec![], 0).unwrap();
    l.clear();
    assert_eq!(l.total_income(), 0);
    assert_eq!(l.total_expenses(), 0);
    assert!(l.summarize_by_category().is_empty());
    l.clear();
    assert_eq!(l.net_income(), 0);
}

#[test]
fn totals_independent_of_order() {
    let mut a = Ledger::new();
    let mut b = Ledger::new();
    for (i, amt) in [300i64, -50, 1200].iter().enumerate() {
        a.add_expense(s("x"), *amt, vec![], i as i64).unwrap();
    }
    for (i, amt) in [1200i64, 300, -50].iter().enumerate() {
        b.add_expense(s("x"), *amt, vec![], i as i64).unwrap();
    }
    assert_eq!(a.total_expenses(), 1450);
    assert_eq!(a.total_expenses(), b.total_expenses());
}

#[test]
fn net_is_income_minus_expenses() {
    let mut l = Ledger::new();
    l.add_income(1_000, s("a"), vec![], 0).unwrap();
    l.add_expense(s("b"), 4_000, vec![], 0).unwrap();
    assert_eq!(l.net_income(), l.total_income() - l.total_expenses());
    assert_eq!(l.net_income(), -3_000);
}

#[test]
fn invalid_amount_is_rejected() {
    let mut l = Ledger::new();
    assert_eq!(l.add_income(MAX_AMOUNT + 1, s("a"), vec![], 0), Err(LedgerError::InvalidAmount));
    assert_eq!(l.add_expense(s("a"), -MAX_AMOUNT - 1, vec![], 0), Err(LedgerError::InvalidAmount));
    assert_eq!(l.total_income(), 0);
    assert!(l.list_expenses().is_empty());
    assert_eq!(check_amount(MAX_AMOUNT), Ok(MAX_AMOUNT));
    assert_eq!(check_amount(i64::MIN), Err(LedgerError::InvalidAmount));
}

#[test]
fn largest_amounts_sum_exactly() {
    let mut l = Ledger::new();
    for i in 0..4 {
        l.add_income(MAX_AMOUNT, s("big"), vec![], i).unwrap();
    }
    assert_eq!(l.total_income(), 4 * MAX_AMOUNT as i128);
}

#[test]
fn empty_category_is_accepted() {
    let mut l = Ledger::new();
    l.add_expense(s(""), 10, vec![], 0).unwrap();
    assert_eq!(total_of(&l.summarize_by_category(), ""), Some(10));
}

#[test]
fn identity_transform_keeps_totals() {
    let mut l = Ledger::new();
    l.add_income(12_345, s("a"), vec![], 0).unwrap();
    l.add_expense(s("b"), -777, vec![], 0).unwrap();
    let r = l.apply_transform(IDENTITY_FACTOR);
    assert_eq!(r.failed_incomes + r.failed_expenses, 0);
    assert_eq!(l.total_income(), 12_345);
    assert_eq!(l.total_expenses(), -777);
}

#[test]
fn transform_scales_each_entry() {
    let mut l = Ledger::new();
    l.add_income(100_000, s("a"), vec![], 0).unwrap();
    l.add_expense(s("b"), 999, vec![], 0).unwrap();
    l.add_expense(s("c"), -999, vec![], 0).unwrap();
    let r = l.apply_transform(10_100);
    assert_eq!(r.failed_incomes + r.failed_expenses, 0);
    assert_eq!(l.total_income(), 101_000);
    assert_eq!(l.list_expenses()[0].amount, 1_008);
    assert_eq!(l.list_expenses()[1].amount, -1_008);
}

#[test]
fn transform_failure_is_counted_and_isolated() {
    let mut l = Ledger::new();
    l.add_expense(s("a"), 1_000, vec![], 0).unwrap();
    l.add_expense(s("b"), MAX_AMOUNT, vec![], 0).unwrap();
    l.add_expense(s("c"), 2_000, vec![], 0).unwrap();
    let r = l.apply_transform(10_100);
    assert_eq!(r.failed_incomes, 0);
    assert_eq!(r.failed_expenses, 1);
    let e = l.list_expenses();
    assert_eq!(e[0].amount, 1_010);
    assert_eq!(e[1].amount, MAX_AMOUNT);
    assert_eq!(e[2].amount, 2_020);
}

#[test]
fn scale_amount_rounds_toward_zero() {
    assert_eq!(scale_amount(15, 5_000), Some(7));
    assert_eq!(scale_amount(-15, 5_000), Some(-7));
    assert_eq!(scale_amount(i64::MAX, 1), Some(i64::MAX / 10_000));
    assert_eq!(scale_amount(i64::MAX, 2), None);
    assert_eq!(scale_amount(MAX_AMOUNT, 20_000), None);
}

#[test]
fn first_load_is_empty() {
    let l = load_state(ReadOutcome::Missing).unwrap();
    assert_eq!(l.total_income(), 0);
    assert_eq!(l.total_expenses(), 0);
    assert_eq!(l.net_income(), 0);
    assert!(l.summarize_by_category().is_empty());
}

#[test]
fn load_errors() {
    assert_eq!(load_state(ReadOutcome::Failed).err(), Some(LedgerError::IOFailure));
    assert_eq!(load_state(ReadOutcome::Undecodable).err(), Some(LedgerError::CorruptState));
}

fn sample() -> Ledger {
    let mut l = Ledger::new();
    l.add_income(100_000, s("salary"), vec![s("work")], 10).unwrap();
    l.add_expense(s("rent"), 50_000, vec![], 11).unwrap();
    l.add_expense(s("food"), 15_000, vec![s("weekly"), s("cash")], 12).unwrap();
    l
}

#[test]
fn parts_round_trip() {
    let l = sample();
    let back = load_state(ReadOutcome::Decoded(sample().into_parts())).unwrap();
    assert_eq!(back.total_income(), l.total_income());
    assert_eq!(back.list_expenses().len(), 2);
    assert_eq!(back.list_expenses()[1].category, "food");
    assert_eq!(back.list_expenses()[1].tags, vec![s("weekly"), s("cash")]);
    assert_eq!(back.list_expenses()[1].timestamp, 12);
    assert_eq!(back.incomes()[0].tags, vec![s("work")]);
}

fn parts(categories: Vec<String>, expense_amount: i64) -> LedgerParts {
    LedgerParts {
        incomes: vec![],
        expenses: vec![Entry::new(0, s("food"), expense_amount, vec![])],
        budgets: vec![Budget::new(s("food"), 10_000)],
        recurring: vec![],
        categories,
        tags: vec![],
    }
}

#[test]
fn corrupt_parts_are_rejected() {
    assert!(Ledger::from_parts(parts(vec![s("food"), s("rent")], 5)).is_ok());
    assert_eq!(
        Ledger::from_parts(parts(vec![s("food"), s("food")], 5)).err(),
        Some(LedgerError::CorruptState)
    );
    assert_eq!(
        Ledger::from_parts(parts(vec![], MAX_AMOUNT + 1)).err(),
        Some(LedgerError::CorruptState)
    );
}

#[test]
fn save_plan_backs_up_first() {
    assert_eq!(
        save_plan(true, true),
        vec![SaveStep::CopyPrimaryToBackup, SaveStep::WriteTemporary, SaveStep::RenameTemporaryToPrimary]
    );
    assert_eq!(save_plan(true, false), vec![SaveStep::WriteTemporary, SaveStep::RenameTemporaryToPrimary]);
    assert_eq!(save_plan(false, true), vec![SaveStep::WriteTemporary, SaveStep::RenameTemporaryToPrimary]);
    assert_eq!(step_error(SaveStep::CopyPrimaryToBackup), LedgerError::BackupFailure);
    assert_eq!(step_error(SaveStep::WriteTemporary), LedgerError::IOFailure);
    assert_eq!(step_error(SaveStep::RenameTemporaryToPrimary), LedgerError::IOFailure);
}

#[test]
fn parse_amounts() {
    assert_eq!(parse_amount("1000.00"), Ok(100_000));
    assert_eq!(parse_amount("12"), Ok(1_200));
    assert_eq!(parse_amount("-3.5"), Ok(-350));
    assert_eq!(parse_amount("0.07"), Ok(7));
    assert_eq!(parse_amount("10000000000000"), Ok(MAX_AMOUNT));
    assert_eq!(parse_amount("10000000000000.01"), Err(LedgerError::InvalidAmount));
    assert_eq!(parse_amount("99999999999999999999999"), Err(LedgerError::InvalidAmount));
    for bad in ["", "-", "abc", "1.", ".5", "1.234", "1,5", "--1", "1e3", "NaN", "inf", "+1"] {
        assert_eq!(parse_amount(bad), Err(LedgerError::InvalidAmount), "{}", bad);
    }
}

#[test]
fn budgets_follow_expenses() {
    let mut l = Ledger::new();
    l.add_budget(s("food"), 10_000).unwrap();
    l.add_budget(s("travel"), 50_000).unwrap();
    l.add_expense(s("food"), 2_000, vec![], 0).unwrap();
    l.add_expense(s("rent"), 40_000, vec![], 0).unwrap();
    l.add_expense(s("food"), 3_000, vec![], 0).unwrap();
    l.reconcile_budgets().unwrap();
    assert_eq!(l.budgets()[0].spent, 5_000);
    assert_eq!(l.budgets()[0].allocated, 10_000);
    assert_eq!(l.budgets()[1].spent, 0);
    l.remove_expenses_by_category(&s("food"));
    l.reconcile_budgets().unwrap();
    assert_eq!(l.budgets()[0].spent, 0);
}

#[test]
fn budget_total_out_of_range_is_rejected() {
    let mut l = Ledger::new();
    l.add_budget(s("big"), 1).unwrap();
    l.add_expense(s("big"), MAX_AMOUNT, vec![], 0).unwrap();
    l.add_expense(s("big"), 1, vec![], 0).unwrap();
    assert_eq!(l.reconcile_budgets(), Err(LedgerError::InvalidAmount));
    assert_eq!(l.budgets()[0].spent, 0);
    assert_eq!(l.add_budget(s("x"), MAX_AMOUNT + 1), Err(LedgerError::InvalidAmount));
    assert_eq!(l.budgets().len(), 1);
}

#[test]
fn categories_stay_unique() {
    let mut l = Ledger::new();
    assert!(l.add_category(s("food")));
    assert!(l.add_category(s("rent")));
    assert!(!l.add_category(s("food")));
    assert_eq!(l.categories(), &vec![s("food"), s("rent")]);
    l.clear();
    assert!(l.categories().is_empty());
    assert!(l.budgets().is_empty());
}
