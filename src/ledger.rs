use vstd::prelude::*;
use crate::amount::{check_amount, valid_amount, LedgerError, MAX_AMOUNT};
use crate::transform::{
    lemma_identity_scale, par_scale, scale_ok, scaled_amount, TransformReport, IDENTITY_FACTOR,
};
use crate::totals::{
    amounts_valid, category_total, has_category, lemma_category_total_absent,
    lemma_category_total_fits, lemma_category_total_push, lemma_sum_fits, lemma_sum_push,
    lemma_without_category_step, sum_amounts, without_category,
};
use crate::entry::{
    budgets_view, entries_view, strings_view, Budget, BudgetView, Entry, EntryView,
};

verus! {

/// The aggregate root: every record of one user's finances.
///
/// Each collection keeps insertion order.
#[derive(Debug)]
pub struct Ledger {
    incomes: Vec<Entry>,
    expenses: Vec<Entry>,
    budgets: Vec<Budget>,
    recurring: Vec<Entry>,
    categories: Vec<String>,
    tags: Vec<String>,
}

/// The records of a ledger as plain collections, in the shape in which
/// they are stored; [`Ledger::from_parts`] checks them.
#[derive(Debug)]
pub struct LedgerParts {
    pub incomes: Vec<Entry>,
    pub expenses: Vec<Entry>,
    pub budgets: Vec<Budget>,
    pub recurring: Vec<Entry>,
    pub categories: Vec<String>,
    pub tags: Vec<String>,
}

/// The ledger value that `p` describes.
pub open spec fn parts_view(p: LedgerParts) -> LedgerView {
    LedgerView {
        incomes: entries_view(p.incomes@),
        expenses: entries_view(p.expenses@),
        budgets: budgets_view(p.budgets@),
        recurring: entries_view(p.recurring@),
        categories: strings_view(p.categories@),
        tags: strings_view(p.tags@),
    }
}

/// The mathematical value of a [`Ledger`].
pub struct LedgerView {
    pub incomes: Seq<EntryView>,
    pub expenses: Seq<EntryView>,
    pub budgets: Seq<BudgetView>,
    pub recurring: Seq<EntryView>,
    pub categories: Seq<Seq<char>>,
    pub tags: Seq<Seq<char>>,
}

impl View for Ledger {
    type V = LedgerView;

    closed spec fn view(&self) -> LedgerView {
        LedgerView {
            incomes: entries_view(self.incomes@),
            expenses: entries_view(self.expenses@),
            budgets: budgets_view(self.budgets@),
            recurring: entries_view(self.recurring@),
            categories: strings_view(self.categories@),
            tags: strings_view(self.tags@),
        }
    }
}

/// The ledger with no records at all.
pub open spec fn empty_view() -> LedgerView {
    LedgerView {
        incomes: Seq::empty(),
        expenses: Seq::empty(),
        budgets: Seq::empty(),
        recurring: Seq::empty(),
        categories: Seq::empty(),
        tags: Seq::empty(),
    }
}

/// Every budget of `s` has valid figures.
pub open spec fn budgets_valid(s: Seq<BudgetView>) -> bool {
    forall|i: int|
        0 <= i < s.len() ==> valid_amount(#[trigger] s[i].allocated) && valid_amount(s[i].spent)
}

/// The records of `v` form a valid ledger: every amount is valid, category
/// names are unique and no tag is listed twice.
pub open spec fn view_valid(v: LedgerView) -> bool {
    &&& amounts_valid(v.incomes)
    &&& amounts_valid(v.expenses)
    &&& amounts_valid(v.recurring)
    &&& budgets_valid(v.budgets)
    &&& v.categories.no_duplicates()
    &&& v.tags.no_duplicates()
}

/// The total income of a ledger.
pub open spec fn income_of(v: LedgerView) -> int {
    sum_amounts(v.incomes)
}

/// The total of the expenses of a ledger.
pub open spec fn expenses_of(v: LedgerView) -> int {
    sum_amounts(v.expenses)
}

/// Sums `v` in `i128`.
fn sum_entries(v: &Vec<Entry>) -> (r: i128)
    requires
        amounts_valid(entries_view(v@)),
    ensures
        r == sum_amounts(entries_view(v@)),
        -100_000_000_000_000_000_000_000_000_000_000_000 < r < 100_000_000_000_000_000_000_000_000_000_000_000,
{
    let ghost s = entries_view(v@);
    let mut total: i128 = 0;
    let mut i: usize = 0;
    while i < v.len()
        invariant
            s == entries_view(v@),
            amounts_valid(s),
            i <= v@.len(),
            total == sum_amounts(s.take(i as int)),
        decreases v@.len() - i,
    {
        proof {
            let p = s.take(i as int + 1);
            assert(p.drop_last() =~= s.take(i as int));
            assert(amounts_valid(p)) by {
                assert forall|k: int| 0 <= k < p.len() implies valid_amount(#[trigger] p[k].amount) by {
                    assert(p[k] == s[k]);
                }
            }
            lemma_sum_fits(p);
            assert(s[i as int] == v@[i as int]@);
        }
        total = total + v[i].amount as i128;
        i = i + 1;
    }
    assert(s.take(v@.len() as int) =~= s);
    proof {
        lemma_sum_fits(s);
    }
    total
}

/// `entries_view` commutes with `push`.
proof fn lemma_entries_view_push(v: Seq<Entry>, e: Entry)
    ensures
        entries_view(v.push(e)) == entries_view(v).push(e@),
{
    assert(entries_view(v.push(e)) =~= entries_view(v).push(e@));
}

/// Per-category totals of `s`, one pair per category: keys are distinct, each
/// key is the category of some entry, each total is that category's sum, and
/// every category of `s` has a key.
pub open spec fn is_summary(r: Seq<(Seq<char>, int)>, s: Seq<EntryView>) -> bool {
    &&& forall|a: int, b: int| 0 <= a < b < r.len() ==> (#[trigger] r[a]).0 != (#[trigger] r[b]).0
    &&& forall|a: int|
        0 <= a < r.len() ==> has_category(s, (#[trigger] r[a]).0) && r[a].1 == category_total(s, r[a].0)
    &&& forall|c: Seq<char>| has_category(s, c) ==> exists|a: int| 0 <= a < r.len() && (#[trigger] r[a]).0 == c
}

/// The mathematical value of a summary returned by `summarize_by_category`.
pub open spec fn summary_view(r: Seq<(String, i128)>) -> Seq<(Seq<char>, int)> {
    r.map_values(|p: (String, i128)| (p.0@, p.1 as int))
}

/// `s` with every amount scaled by `factor` basis points, where the result is
/// a valid amount; an entry whose scaled amount is not valid keeps its amount.
pub open spec fn transformed(s: Seq<EntryView>, factor: int) -> Seq<EntryView> {
    Seq::new(
        s.len(),
        |i: int|
            if scale_ok(s[i].amount, factor) {
                EntryView { amount: scaled_amount(s[i].amount, factor), ..s[i] }
            } else {
                s[i]
            },
    )
}

/// The entries of `s` whose scaled amount is not valid.
pub open spec fn failing(s: Seq<EntryView>, factor: int) -> Seq<EntryView> {
    s.filter(|e: EntryView| !scale_ok(e.amount, factor))
}

proof fn lemma_failing_step(s: Seq<EntryView>, i: int, factor: int)
    requires
        0 <= i < s.len(),
    ensures
        failing(s.take(i + 1), factor) == if !scale_ok(s[i].amount, factor) {
            failing(s.take(i), factor).push(s[i])
        } else {
            failing(s.take(i), factor)
        },
{
    reveal(Seq::filter);
    assert(s.take(i + 1).drop_last() =~= s.take(i));
    assert(s.take(i + 1).last() == s[i]);
}

/// Transforms every entry of `v` independently; returns the new entries and
/// how many kept their amount because the scaled one was not valid.
fn transform_entries(v: &Vec<Entry>, factor: i64) -> (r: (Vec<Entry>, usize))
    requires
        amounts_valid(entries_view(v@)),
    ensures
        entries_view(r.0@) == transformed(entries_view(v@), factor as int),
        r.1 == failing(entries_view(v@), factor as int).len(),
{
    let ghost s = entries_view(v@);
    let mut amounts: Vec<i64> = Vec::new();
    let mut i: usize = 0;
    while i < v.len()
        invariant
            i <= v@.len(),
            amounts@.len() == i,
            forall|k: int| 0 <= k < i ==> amounts@[k] == (#[trigger] v@[k]).amount,
        decreases v@.len() - i,
    {
        amounts.push(v[i].amount);
        i = i + 1;
    }
    let results = par_scale(&amounts, factor);
    let mut out: Vec<Entry> = Vec::new();
    let mut failed: usize = 0;
    let mut i: usize = 0;
    while i < v.len()
        invariant
            s == entries_view(v@),
            i <= v@.len(),
            amounts@.len() == v@.len(),
            results@.len() == v@.len(),
            forall|k: int| 0 <= k < v@.len() ==> amounts@[k] == (#[trigger] v@[k]).amount,
            forall|k: int| 0 <= k < amounts@.len() ==> crate::transform::scale_outcome(amounts@[k] as int, factor as int, #[trigger] results@[k]),
            entries_view(out@) == transformed(s, factor as int).take(i as int),
            failed == failing(s.take(i as int), factor as int).len(),
            failed <= i,
        decreases v@.len() - i,
    {
        proof {
            lemma_failing_step(s, i as int, factor as int);
            assert(s[i as int] == v@[i as int]@);
            assert(crate::transform::scale_outcome(amounts@[i as int] as int, factor as int, results@[i as int]));
        }
        let e = match results[i] {
            Some(x) => v[i].with_amount(x),
            None => {
                failed = failed + 1;
                v[i].copy()
            },
        };
        proof {
            lemma_entries_view_push(out@, e);
            assert(transformed(s, factor as int).take(i as int + 1) =~= transformed(s, factor as int).take(i as int).push(e@));
        }
        out.push(e);
        i = i + 1;
    }
    assert(transformed(s, factor as int).take(v@.len() as int) =~= transformed(s, factor as int));
    assert(s.take(v@.len() as int) =~= s);
    (out, failed)
}

/// Transforming keeps every amount valid.
proof fn lemma_transformed_valid(s: Seq<EntryView>, factor: int)
    requires
        amounts_valid(s),
    ensures
        amounts_valid(transformed(s, factor)),
{
    let t = transformed(s, factor);
    assert forall|i: int| 0 <= i < t.len() implies valid_amount(#[trigger] t[i].amount) by {
        assert(valid_amount(s[i].amount));
    }
}

/// Whether every entry of `v` has a valid amount.
fn entries_valid(v: &Vec<Entry>) -> (r: bool)
    ensures
        r == amounts_valid(entries_view(v@)),
{
    let mut i: usize = 0;
    while i < v.len()
        invariant
            i <= v@.len(),
            forall|k: int| 0 <= k < i ==> valid_amount(#[trigger] entries_view(v@)[k].amount),
        decreases v@.len() - i,
    {
        if v[i].amount < -MAX_AMOUNT || v[i].amount > MAX_AMOUNT {
            assert(entries_view(v@)[i as int] == v@[i as int]@);
            assert(!valid_amount(entries_view(v@)[i as int].amount));
            return false;
        }
        i = i + 1;
    }
    assert(entries_view(v@).len() == v@.len());
    true
}

/// Whether every budget of `v` has valid figures.
fn budgets_ok(v: &Vec<Budget>) -> (r: bool)
    ensures
        r == budgets_valid(budgets_view(v@)),
{
    let ghost bv = budgets_view(v@);
    assert(bv.len() == v@.len());
    let mut i: usize = 0;
    while i < v.len()
        invariant
            bv == budgets_view(v@),
            bv.len() == v@.len(),
            i <= v@.len(),
            forall|k: int| 0 <= k < i ==> valid_amount(#[trigger] bv[k].allocated) && valid_amount(bv[k].spent),
        decreases v@.len() - i,
    {
        let allocated = v[i].allocated;
        let spent = v[i].spent;
        assert(bv[i as int] == v@[i as int]@);
        assert(bv[i as int].allocated == allocated as int && bv[i as int].spent == spent as int);
        if allocated < -MAX_AMOUNT || allocated > MAX_AMOUNT || spent < -MAX_AMOUNT || spent > MAX_AMOUNT {
            assert(!(valid_amount(bv[i as int].allocated) && valid_amount(bv[i as int].spent)));
            return false;
        }
        assert forall|k: int| 0 <= k < i + 1 implies valid_amount(#[trigger] bv[k].allocated) && valid_amount(bv[k].spent) by {
            if k == i {
                assert(valid_amount(allocated as int) && valid_amount(spent as int));
            }
        }
        i = i + 1;
    }
    true
}

/// Whether no two strings of `v` are equal.
fn all_distinct(v: &Vec<String>) -> (r: bool)
    ensures
        r == strings_view(v@).no_duplicates(),
{
    let ghost s = strings_view(v@);
    let mut i: usize = 0;
    while i < v.len()
        invariant
            s == strings_view(v@),
            i <= v@.len(),
            forall|a: int, b: int| 0 <= a < b < i ==> s[a] != s[b],
        decreases v@.len() - i,
    {
        let mut j: usize = 0;
        while j < i
            invariant
                s == strings_view(v@),
                i < v@.len(),
                j <= i,
                forall|a: int| 0 <= a < j ==> s[a] != s[i as int],
            decreases i - j,
        {
            if v[j] == v[i] {
                assert(s[j as int] == v@[j as int]@ && s[i as int] == v@[i as int]@);
                assert(s[j as int] == s[i as int]);
                return false;
            }
            j = j + 1;
        }
        i = i + 1;
    }
    assert(s.len() == v@.len());
    true
}

/// After the expenses of category `c` are removed, no expense carries `c`,
/// so no summary of the remaining expenses has a key `c`.
pub proof fn law_removed_category_absent(s: Seq<EntryView>, c: Seq<char>, r: Seq<(Seq<char>, int)>)
    requires
        is_summary(r, without_category(s, c)),
    ensures
        !has_category(without_category(s, c), c),
        forall|a: int| 0 <= a < r.len() ==> (#[trigger] r[a]).0 != c,
{
    let t = without_category(s, c);
    let pred = |e: EntryView| e.category != c;
    if has_category(t, c) {
        let i = choose|i: int| 0 <= i < t.len() && (#[trigger] t[i]).category == c;
        s.lemma_filter_pred(pred, i);
    }
}

/// A well-formed ledger taken apart into its stored parts is accepted back
/// by `Ledger::from_parts`, which then rebuilds the same ledger.
pub proof fn law_parts_round_trip(l: Ledger, p: LedgerParts)
    requires
        l.wf(),
        parts_view(p) == l@,
    ensures
        view_valid(parts_view(p)),
{
}

/// The identity factor changes no amount and fails on no entry.
pub proof fn law_identity_transform(s: Seq<EntryView>)
    requires
        amounts_valid(s),
    ensures
        transformed(s, IDENTITY_FACTOR as int) == s,
        failing(s, IDENTITY_FACTOR as int).len() == 0,
{
    let f = IDENTITY_FACTOR as int;
    assert forall|i: int| 0 <= i < s.len() implies scale_ok(#[trigger] s[i].amount, f) by {
        lemma_identity_scale(s[i].amount);
    }
    assert(transformed(s, f) =~= s);
    let t = failing(s, f);
    if t.len() > 0 {
        s.lemma_filter_contains_rev(|e: EntryView| !scale_ok(e.amount, f), t[0]);
        assert(t.contains(t[0]));
        s.lemma_filter_pred(|e: EntryView| !scale_ok(e.amount, f), 0);
    }
}

/// The total of the entries of `v` whose category is `c`.
fn category_sum(v: &Vec<Entry>, c: &String) -> (r: i128)
    requires
        amounts_valid(entries_view(v@)),
    ensures
        r == category_total(entries_view(v@), c@),
{
    let ghost s = entries_view(v@);
    let mut total: i128 = 0;
    let mut i: usize = 0;
    while i < v.len()
        invariant
            s == entries_view(v@),
            amounts_valid(s),
            i <= v@.len(),
            total == category_total(s.take(i as int), c@),
        decreases v@.len() - i,
    {
        let ghost p = s.take(i as int);
        let ghost q = s.take(i as int + 1);
        proof {
            assert(q =~= p.push(s[i as int]));
            assert(s[i as int] == v@[i as int]@);
            lemma_category_total_push(p, s[i as int], c@);
            assert(amounts_valid(q)) by {
                assert forall|k: int| 0 <= k < q.len() implies valid_amount(#[trigger] q[k].amount) by {
                    assert(q[k] == s[k]);
                }
            }
            lemma_category_total_fits(q, c@);
        }
        if v[i].category == *c {
            total = total + v[i].amount as i128;
        }
        i = i + 1;
    }
    assert(s.take(v@.len() as int) =~= s);
    total
}

/// `new` is `old` with each budget's `spent` set to the total of the
/// expenses of its category in `expenses`.
pub open spec fn reconciled(old: Seq<BudgetView>, new: Seq<BudgetView>, expenses: Seq<EntryView>) -> bool {
    &&& new.len() == old.len()
    &&& forall|i: int| 0 <= i < old.len() ==> (#[trigger] new[i]) == (BudgetView {
        spent: category_total(expenses, old[i].category),
        ..old[i]
    })
}

/// Every budget's category has an expense total that is a valid amount.
pub open spec fn reconcilable(budgets: Seq<BudgetView>, expenses: Seq<EntryView>) -> bool {
    forall|i: int| 0 <= i < budgets.len() ==> valid_amount(category_total(expenses, (#[trigger] budgets[i]).category))
}

impl Ledger {
    /// Well-formedness: the records form a valid ledger.
    pub open spec fn wf(&self) -> bool {
        view_valid(self@)
    }

    /// A fresh ledger with no records.
    pub fn new() -> (r: Ledger)
        ensures
            r@ == empty_view(),
            r.wf(),
    {
        let r = Ledger {
            incomes: Vec::new(),
            expenses: Vec::new(),
            budgets: Vec::new(),
            recurring: Vec::new(),
            categories: Vec::new(),
            tags: Vec::new(),
        };
        assert(r@.incomes =~= Seq::<EntryView>::empty());
        assert(r@.expenses =~= Seq::<EntryView>::empty());
        assert(r@.recurring =~= Seq::<EntryView>::empty());
        assert(r@.budgets =~= Seq::<BudgetView>::empty());
        assert(r@.categories =~= Seq::<Seq<char>>::empty());
        assert(r@.tags =~= Seq::<Seq<char>>::empty());
        r
    }

    /// The sum of all income amounts, in cents.
    pub fn total_income(&self) -> (r: i128)
        requires
            self.wf(),
        ensures
            r == income_of(self@),
    {
        sum_entries(&self.incomes)
    }

    /// The sum of all expense amounts, in cents.
    pub fn total_expenses(&self) -> (r: i128)
        requires
            self.wf(),
        ensures
            r == expenses_of(self@),
    {
        sum_entries(&self.expenses)
    }

    /// Total income minus total expenses, in cents.
    pub fn net_income(&self) -> (r: i128)
        requires
            self.wf(),
        ensures
            r == income_of(self@) - expenses_of(self@),
    {
        let inc = sum_entries(&self.incomes);
        let exp = sum_entries(&self.expenses);
        inc - exp
    }
    /// Records an income. Fails with `InvalidAmount`, leaving the ledger
    /// unchanged, when `amount` is not a valid amount.
    pub fn add_income(&mut self, amount: i64, category: String, tags: Vec<String>, timestamp: i64) -> (r: Result<(), LedgerError>)
        requires
            old(self).wf(),
        ensures
            final(self).wf(),
            valid_amount(amount as int) ==> r is Ok && final(self)@ == (LedgerView {
                incomes: old(self)@.incomes.push(EntryView {
                    timestamp: timestamp as int,
                    category: category@,
                    amount: amount as int,
                    tags: strings_view(tags@),
                }),
                ..old(self)@
            }),
            !valid_amount(amount as int) ==> r == Err::<(), LedgerError>(LedgerError::InvalidAmount) && final(self)@ == old(self)@,
            income_of(final(self)@) == income_of(old(self)@) + if r is Ok { amount as int } else { 0 },
    {
        if check_amount(amount).is_err() {
            return Err(LedgerError::InvalidAmount);
        }
        let e = Entry::new(timestamp, category, amount, tags);
        proof {
            lemma_entries_view_push(self.incomes@, e);
            lemma_sum_push(self@.incomes, e@);
        }
        self.incomes.push(e);
        Ok(())
    }

    /// Records an expense. Fails with `InvalidAmount`, leaving the ledger
    /// unchanged, when `amount` is not a valid amount. Any category string,
    /// the empty one included, is accepted.
    pub fn add_expense(&mut self, category: String, amount: i64, tags: Vec<String>, timestamp: i64) -> (r: Result<(), LedgerError>)
        requires
            old(self).wf(),
        ensures
            final(self).wf(),
            valid_amount(amount as int) ==> r is Ok && final(self)@ == (LedgerView {
                expenses: old(self)@.expenses.push(EntryView {
                    timestamp: timestamp as int,
                    category: category@,
                    amount: amount as int,
                    tags: strings_view(tags@),
                }),
                ..old(self)@
            }),
            !valid_amount(amount as int) ==> r == Err::<(), LedgerError>(LedgerError::InvalidAmount) && final(self)@ == old(self)@,
            expenses_of(final(self)@) == expenses_of(old(self)@) + if r is Ok { amount as int } else { 0 },
    {
        if check_amount(amount).is_err() {
            return Err(LedgerError::InvalidAmount);
        }
        let e = Entry::new(timestamp, category, amount, tags);
        proof {
            lemma_entries_view_push(self.expenses@, e);
            lemma_sum_push(self@.expenses, e@);
        }
        self.expenses.push(e);
        Ok(())
    }

    /// Deletes every expense whose category is exactly `category`, keeping
    /// the order of the others, and returns how many were deleted.
    pub fn remove_expenses_by_category(&mut self, category: &String) -> (r: usize)
        requires
            old(self).wf(),
        ensures
            final(self).wf(),
            final(self)@ == (LedgerView {
                expenses: without_category(old(self)@.expenses, category@),
                ..old(self)@
            }),
            r == old(self)@.expenses.len() - final(self)@.expenses.len(),
            !has_category(final(self)@.expenses, category@),
    {
        let ghost s = self@.expenses;
        let mut kept: Vec<Entry> = Vec::new();
        let mut i: usize = 0;
        while i < self.expenses.len()
            invariant
                s == entries_view(self.expenses@),
                amounts_valid(s),
                i <= s.len(),
                entries_view(kept@) == without_category(s.take(i as int), category@),
                amounts_valid(entries_view(kept@)),
                kept@.len() <= i,
                !has_category(entries_view(kept@), category@),
            decreases s.len() - i,
        {
            proof {
                lemma_without_category_step(s, i as int, category@);
                assert(s[i as int] == self.expenses@[i as int]@);
            }
            if !(self.expenses[i].category == *category) {
                let e = self.expenses[i].copy();
                proof {
                    lemma_entries_view_push(kept@, e);
                    lemma_category_total_push(entries_view(kept@), e@, category@);
                }
                kept.push(e);
            }
            i = i + 1;
        }
        assert(s.take(s.len() as int) =~= s);
        let removed = self.expenses.len() - kept.len();
        self.expenses = kept;
        removed
    }

    /// Resets the ledger to the fresh, empty state.
    pub fn clear(&mut self)
        ensures
            final(self)@ == empty_view(),
            final(self).wf(),
    {
        *self = Ledger::new();
    }

    /// The expenses, in the order in which they were recorded.
    pub fn list_expenses(&self) -> (r: &Vec<Entry>)
        ensures
            entries_view(r@) == self@.expenses,
    {
        &self.expenses
    }

    /// The incomes, in the order in which they were recorded.
    pub fn incomes(&self) -> (r: &Vec<Entry>)
        ensures
            entries_view(r@) == self@.incomes,
    {
        &self.incomes
    }

    /// The budgets, in the order in which they were recorded.
    pub fn budgets(&self) -> (r: &Vec<Budget>)
        ensures
            budgets_view(r@) == self@.budgets,
    {
        &self.budgets
    }

    /// The recurring transactions, in the order in which they were recorded.
    pub fn recurring(&self) -> (r: &Vec<Entry>)
        ensures
            entries_view(r@) == self@.recurring,
    {
        &self.recurring
    }

    /// The category names.
    pub fn categories(&self) -> (r: &Vec<String>)
        ensures
            strings_view(r@) == self@.categories,
    {
        &self.categories
    }

    /// The known tags.
    pub fn tags(&self) -> (r: &Vec<String>)
        ensures
            strings_view(r@) == self@.tags,
    {
        &self.tags
    }
    /// The total of the expenses of each category: one pair per category
    /// that some expense carries, with distinct keys.
    pub fn summarize_by_category(&self) -> (r: Vec<(String, i128)>)
        requires
            self.wf(),
        ensures
            is_summary(summary_view(r@), self@.expenses),
    {
        let ghost s = self@.expenses;
        let mut keys: Vec<String> = Vec::new();
        let mut totals: Vec<i128> = Vec::new();
        let mut i: usize = 0;
        while i < self.expenses.len()
            invariant
                s == entries_view(self.expenses@),
                amounts_valid(s),
                i <= s.len(),
                keys@.len() == totals@.len(),
                forall|a: int, b: int| 0 <= a < b < keys@.len() ==> (#[trigger] keys@[a])@ != (#[trigger] keys@[b])@,
                forall|a: int| 0 <= a < keys@.len() ==> has_category(s.take(i as int), (#[trigger] keys@[a])@)
                    && totals@[a] == category_total(s.take(i as int), keys@[a]@),
                forall|c: Seq<char>| has_category(s.take(i as int), c) ==>
                    exists|a: int| 0 <= a < keys@.len() && (#[trigger] keys@[a])@ == c,
            decreases s.len() - i,
        {
            let ghost p = s.take(i as int);
            let ghost q = s.take(i as int + 1);
            let ghost e = s[i as int];
            proof {
                assert(q =~= p.push(e));
                assert(e == self.expenses@[i as int]@);
                assert(amounts_valid(q)) by {
                    assert forall|k: int| 0 <= k < q.len() implies valid_amount(#[trigger] q[k].amount) by {
                        assert(q[k] == s[k]);
                    }
                }
                assert forall|c: Seq<char>| true implies
                    category_total(q, c) == category_total(p, c) + (if e.category == c { e.amount } else { 0 })
                    && has_category(q, c) == (has_category(p, c) || e.category == c) by {
                    lemma_category_total_push(p, e, c);
                }
            }
            let mut pos: Option<usize> = None;
            let mut j: usize = 0;
            while j < keys.len()
                invariant
                    j <= keys@.len(),
                    i < self.expenses@.len(),
                    e == self.expenses@[i as int]@,
                    pos is None ==> forall|a: int| 0 <= a < j ==> (#[trigger] keys@[a])@ != e.category,
                    pos matches Some(x) ==> x < keys@.len() && keys@[x as int]@ == e.category,
                decreases keys@.len() - j,
            {
                if pos.is_none() && keys[j] == self.expenses[i].category {
                    pos = Some(j);
                }
                j = j + 1;
            }
            proof {
                lemma_category_total_fits(q, e.category);
            }
            let ghost old_keys = keys@;
            match pos {
                Some(x) => {
                    let t = totals[x] + self.expenses[i].amount as i128;
                    totals.set(x, t);
                },
                None => {
                    proof {
                        if has_category(p, e.category) {
                            let a = choose|a: int| 0 <= a < keys@.len() && (#[trigger] keys@[a])@ == e.category;
                        }
                        lemma_category_total_absent(p, e.category);
                    }
                    keys.push(self.expenses[i].category.clone());
                    totals.push(self.expenses[i].amount as i128);
                },
            }
            i = i + 1;
            proof {
                assert forall|c: Seq<char>| has_category(q, c) implies
                    exists|a: int| 0 <= a < keys@.len() && (#[trigger] keys@[a])@ == c by {
                    if c == e.category {
                        match pos {
                            Some(x) => { assert(keys@[x as int]@ == c); },
                            None => { assert(keys@[keys@.len() - 1]@ == c); },
                        }
                    } else {
                        let a = choose|a: int| 0 <= a < old_keys.len() && (#[trigger] old_keys[a])@ == c;
                        assert(keys@[a] == old_keys[a]);
                    }
                }
            }
        }
        assert(s.take(s.len() as int) =~= s);
        let mut r: Vec<(String, i128)> = Vec::new();
        let mut k: usize = 0;
        while k < keys.len()
            invariant
                k <= keys@.len(),
                keys@.len() == totals@.len(),
                r@.len() == k,
                forall|a: int| 0 <= a < k ==> (#[trigger] r@[a]).0@ == keys@[a]@ && r@[a].1 == totals@[a],
            decreases keys@.len() - k,
        {
            r.push((keys[k].clone(), totals[k]));
            k = k + 1;
        }
        proof {
            let sv = summary_view(r@);
            assert forall|a: int| 0 <= a < sv.len() implies (#[trigger] sv[a]).0 == keys@[a]@ && sv[a].1 == totals@[a] by {
                assert(r@[a].0@ == keys@[a]@);
            }
            assert forall|c: Seq<char>| has_category(s, c) implies exists|a: int| 0 <= a < sv.len() && (#[trigger] sv[a]).0 == c by {
                let a = choose|a: int| 0 <= a < keys@.len() && (#[trigger] keys@[a])@ == c;
                assert(sv[a].0 == c);
            }
        }
        r
    }
    /// The bulk transform pass: scales every income and expense amount by
    /// `factor` basis points, each entry on its own. An entry whose scaled
    /// amount would not be valid keeps its amount and is counted as failed;
    /// the others are scaled all the same.
    pub fn apply_transform(&mut self, factor: i64) -> (r: TransformReport)
        requires
            old(self).wf(),
        ensures
            final(self).wf(),
            final(self)@ == (LedgerView {
                incomes: transformed(old(self)@.incomes, factor as int),
                expenses: transformed(old(self)@.expenses, factor as int),
                ..old(self)@
            }),
            r.failed_incomes == failing(old(self)@.incomes, factor as int).len(),
            r.failed_expenses == failing(old(self)@.expenses, factor as int).len(),
    {
        let (incomes, failed_incomes) = transform_entries(&self.incomes, factor);
        let (expenses, failed_expenses) = transform_entries(&self.expenses, factor);
        proof {
            lemma_transformed_valid(self@.incomes, factor as int);
            lemma_transformed_valid(self@.expenses, factor as int);
        }
        self.incomes = incomes;
        self.expenses = expenses;
        TransformReport { failed_incomes, failed_expenses }
    }
    /// Builds a ledger from stored parts. Fails with `CorruptState` exactly
    /// when the parts do not form a valid ledger.
    pub fn from_parts(parts: LedgerParts) -> (r: Result<Ledger, LedgerError>)
        ensures
            view_valid(parts_view(parts)) ==> r is Ok,
            !view_valid(parts_view(parts)) ==> r == Err::<Ledger, LedgerError>(LedgerError::CorruptState),
            r matches Ok(l) ==> l@ == parts_view(parts) && l.wf(),
    {
        if entries_valid(&parts.incomes) && entries_valid(&parts.expenses) && entries_valid(&parts.recurring)
            && budgets_ok(&parts.budgets) && all_distinct(&parts.categories) && all_distinct(&parts.tags) {
            Ok(Ledger {
                incomes: parts.incomes,
                expenses: parts.expenses,
                budgets: parts.budgets,
                recurring: parts.recurring,
                categories: parts.categories,
                tags: parts.tags,
            })
        } else {
            Err(LedgerError::CorruptState)
        }
    }

    /// The records of this ledger as plain collections, for storage.
    pub fn into_parts(self) -> (r: LedgerParts)
        ensures
            parts_view(r) == self@,
    {
        LedgerParts {
            incomes: self.incomes,
            expenses: self.expenses,
            budgets: self.budgets,
            recurring: self.recurring,
            categories: self.categories,
            tags: self.tags,
        }
    }
    /// Recomputes each budget's `spent` as the total of the expenses of its
    /// category. Fails with `InvalidAmount`, changing nothing, when some such
    /// total is not a valid amount.
    pub fn reconcile_budgets(&mut self) -> (r: Result<(), LedgerError>)
        requires
            old(self).wf(),
        ensures
            final(self).wf(),
            reconcilable(old(self)@.budgets, old(self)@.expenses) ==> r is Ok
                && reconciled(old(self)@.budgets, final(self)@.budgets, old(self)@.expenses)
                && final(self)@ == (LedgerView { budgets: final(self)@.budgets, ..old(self)@ }),
            !reconcilable(old(self)@.budgets, old(self)@.expenses) ==> r == Err::<(), LedgerError>(LedgerError::InvalidAmount)
                && final(self)@ == old(self)@,
    {
        let ghost ob = self@.budgets;
        let ghost ex = self@.expenses;
        let mut updated: Vec<Budget> = Vec::new();
        let mut i: usize = 0;
        while i < self.budgets.len()
            invariant
                self.wf(),
                ob == self@.budgets,
                ex == self@.expenses,
                ob == budgets_view(self.budgets@),
                ex == entries_view(self.expenses@),
                amounts_valid(ex),
                i <= ob.len(),
                budgets_valid(ob),
                reconciled(ob.take(i as int), budgets_view(updated@), ex),
                reconcilable(ob.take(i as int), ex),
            decreases ob.len() - i,
        {
            let total = category_sum(&self.expenses, &self.budgets[i].category);
            assert(ob[i as int] == self.budgets@[i as int]@);
            if total < -(MAX_AMOUNT as i128) || total > MAX_AMOUNT as i128 {
                proof {
                    assert(!valid_amount(category_total(ex, ob[i as int].category)));
                }
                return Err(LedgerError::InvalidAmount);
            }
            let b = Budget {
                category: self.budgets[i].category.clone(),
                allocated: self.budgets[i].allocated,
                spent: total as i64,
            };
            proof {
                assert(budgets_view(updated@.push(b)) =~= budgets_view(updated@).push(b@));
                assert(ob.take(i as int + 1) =~= ob.take(i as int).push(ob[i as int]));
            }
            updated.push(b);
            i = i + 1;
        }
        assert(ob.take(ob.len() as int) =~= ob);
        proof {
            let nb = budgets_view(updated@);
            assert forall|k: int| 0 <= k < nb.len() implies valid_amount(#[trigger] nb[k].allocated) && valid_amount(nb[k].spent) by {
                assert(nb[k] == (BudgetView { spent: category_total(ex, ob[k].category), ..ob[k] }));
            }
        }
        self.budgets = updated;
        Ok(())
    }

    /// Adds a budget for `category` with nothing spent. Fails with
    /// `InvalidAmount`, changing nothing, when `allocated` is not valid.
    pub fn add_budget(&mut self, category: String, allocated: i64) -> (r: Result<(), LedgerError>)
        requires
            old(self).wf(),
        ensures
            final(self).wf(),
            valid_amount(allocated as int) ==> r is Ok && final(self)@ == (LedgerView {
                budgets: old(self)@.budgets.push(BudgetView { category: category@, allocated: allocated as int, spent: 0 }),
                ..old(self)@
            }),
            !valid_amount(allocated as int) ==> r == Err::<(), LedgerError>(LedgerError::InvalidAmount) && final(self)@ == old(self)@,
    {
        if check_amount(allocated).is_err() {
            return Err(LedgerError::InvalidAmount);
        }
        let b = Budget::new(category, allocated);
        assert(budgets_view(self.budgets@.push(b)) =~= budgets_view(self.budgets@).push(b@));
        self.budgets.push(b);
        Ok(())
    }

    /// Adds the category `name` unless it is already known; returns whether
    /// it was added. Category names stay unique.
    pub fn add_category(&mut self, name: String) -> (r: bool)
        requires
            old(self).wf(),
        ensures
            final(self).wf(),
            r == !old(self)@.categories.contains(name@),
            r ==> final(self)@ == (LedgerView { categories: old(self)@.categories.push(name@), ..old(self)@ }),
            !r ==> final(self)@ == old(self)@,
    {
        let ghost cs = self@.categories;
        let mut i: usize = 0;
        while i < self.categories.len()
            invariant
                self.wf(),
                cs == self@.categories,
                cs == strings_view(self.categories@),
                i <= cs.len(),
                forall|k: int| 0 <= k < i ==> cs[k] != name@,
            decreases cs.len() - i,
        {
            if self.categories[i] == name {
                assert(cs[i as int] == name@);
                return false;
            }
            i = i + 1;
        }
        assert(strings_view(self.categories@.push(name)) =~= cs.push(name@));
        self.categories.push(name);
        proof {
            let n = cs.push(name@);
            assert forall|a: int, b: int| 0 <= a < n.len() && 0 <= b < n.len() && a != b implies n[a] != n[b] by {
                if a < cs.len() && b < cs.len() {
                } else if a < cs.len() {
                    assert(n[b] == name@);
                } else {
                    assert(n[a] == name@);
                }
            }
        }
        true
    }
}

} // verus!
