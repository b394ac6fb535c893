use vstd::prelude::*;

verus! {

/// One transaction: an income, an expense, or the template of a recurring one.
///
/// `timestamp` is seconds since the Unix epoch; `amount` is in cents.
#[derive(Debug)]
pub struct Entry {
    pub timestamp: i64,
    pub category: String,
    pub amount: i64,
    pub tags: Vec<String>,
}

/// An income entry.
pub type Income = Entry;

/// An expense entry.
pub type Expense = Entry;

/// A recurring transaction; `timestamp` is the next occurrence.
pub type RecurringTransaction = Entry;

/// The mathematical value of an [`Entry`].
pub struct EntryView {
    pub timestamp: int,
    pub category: Seq<char>,
    pub amount: int,
    pub tags: Seq<Seq<char>>,
}

/// The text of each string in `v`.
pub open spec fn strings_view(v: Seq<String>) -> Seq<Seq<char>> {
    v.map_values(|s: String| s@)
}

impl View for Entry {
    type V = EntryView;

    open spec fn view(&self) -> EntryView {
        EntryView {
            timestamp: self.timestamp as int,
            category: self.category@,
            amount: self.amount as int,
            tags: strings_view(self.tags@),
        }
    }
}

/// A spending allowance for one category, in cents.
#[derive(Debug)]
pub struct Budget {
    pub category: String,
    pub allocated: i64,
    pub spent: i64,
}

/// The mathematical value of a [`Budget`].
pub struct BudgetView {
    pub category: Seq<char>,
    pub allocated: int,
    pub spent: int,
}

impl View for Budget {
    type V = BudgetView;

    open spec fn view(&self) -> BudgetView {
        BudgetView {
            category: self.category@,
            allocated: self.allocated as int,
            spent: self.spent as int,
        }
    }
}

/// The views of a sequence of entries.
pub open spec fn entries_view(v: Seq<Entry>) -> Seq<EntryView> {
    v.map_values(|e: Entry| e@)
}

/// The views of a sequence of budgets.
pub open spec fn budgets_view(v: Seq<Budget>) -> Seq<BudgetView> {
    v.map_values(|b: Budget| b@)
}

/// A copy of a list of strings.
pub fn copy_strings(v: &Vec<String>) -> (r: Vec<String>)
    ensures
        r@ == v@,
{
    let mut r: Vec<String> = Vec::new();
    let mut i: usize = 0;
    while i < v.len()
        invariant
            i <= v@.len(),
            r@ == v@.take(i as int),
        decreases v@.len() - i,
    {
        r.push(v[i].clone());
        i = i + 1;
        assert(r@ =~= v@.take(i as int));
    }
    assert(v@.take(v@.len() as int) =~= v@);
    r
}

impl Entry {
    /// Builds an entry from its parts.
    pub fn new(timestamp: i64, category: String, amount: i64, tags: Vec<String>) -> (r: Entry)
        ensures
            r.timestamp == timestamp,
            r.category == category,
            r.amount == amount,
            r.tags == tags,
    {
        Entry { timestamp, category, amount, tags }
    }

    /// A copy of this entry.
    pub fn copy(&self) -> (r: Entry)
        ensures
            r@ == self@,
            r.timestamp == self.timestamp,
            r.category == self.category,
            r.amount == self.amount,
            r.tags@ == self.tags@,
    {
        Entry {
            timestamp: self.timestamp,
            category: self.category.clone(),
            amount: self.amount,
            tags: copy_strings(&self.tags),
        }
    }

    /// This entry with its amount replaced by `amount`.
    pub fn with_amount(&self, amount: i64) -> (r: Entry)
        ensures
            r@ == (EntryView { amount: amount as int, ..self@ }),
    {
        let mut r = self.copy();
        r.amount = amount;
        r
    }
}

impl Budget {
    /// Builds a budget with nothing spent yet.
    pub fn new(category: String, allocated: i64) -> (r: Budget)
        ensures
            r.category == category,
            r.allocated == allocated,
            r.spent == 0,
    {
        Budget { category, allocated, spent: 0 }
    }
}

} // verus!
