use vstd::prelude::*;
use crate::amount::{valid_amount, MAX_AMOUNT};
use crate::entry::EntryView;

verus! {

/// Every entry of `s` has a valid amount.
pub open spec fn amounts_valid(s: Seq<EntryView>) -> bool {
    forall|i: int| 0 <= i < s.len() ==> valid_amount(#[trigger] s[i].amount)
}

/// The sum of the amounts of `s`.
pub open spec fn sum_amounts(s: Seq<EntryView>) -> int
    decreases s.len(),
{
    if s.len() == 0 {
        0
    } else {
        sum_amounts(s.drop_last()) + s.last().amount
    }
}

/// The sum of the amounts of the entries of `s` whose category is `c`.
pub open spec fn category_total(s: Seq<EntryView>, c: Seq<char>) -> int
    decreases s.len(),
{
    if s.len() == 0 {
        0
    } else {
        category_total(s.drop_last(), c) + if s.last().category == c {
            s.last().amount
        } else {
            0
        }
    }
}

/// Some entry of `s` has category `c`.
pub open spec fn has_category(s: Seq<EntryView>, c: Seq<char>) -> bool {
    exists|i: int| 0 <= i < s.len() && (#[trigger] s[i]).category == c
}

/// The entries of `s` whose category is not `c`, in their order.
pub open spec fn without_category(s: Seq<EntryView>, c: Seq<char>) -> Seq<EntryView> {
    s.filter(|e: EntryView| e.category != c)
}

/// A sum over `s` of valid amounts is bounded by `s.len()` times the largest amount.
pub proof fn lemma_sum_bounded(s: Seq<EntryView>)
    requires
        amounts_valid(s),
    ensures
        -(s.len() * MAX_AMOUNT) <= sum_amounts(s) <= s.len() * MAX_AMOUNT,
    decreases s.len(),
{
    if s.len() > 0 {
        let t = s.drop_last();
        assert(amounts_valid(t)) by {
            assert forall|i: int| 0 <= i < t.len() implies valid_amount(#[trigger] t[i].amount) by {
                assert(t[i] == s[i]);
            }
        }
        lemma_sum_bounded(t);
        assert(valid_amount(s[s.len() - 1].amount));
        assert(s.len() * MAX_AMOUNT == t.len() * MAX_AMOUNT + MAX_AMOUNT) by (nonlinear_arith)
            requires s.len() == t.len() + 1;
    }
}

/// The amounts summed over a sequence of at most `usize::MAX` valid entries
/// stay well inside `i128`.
pub proof fn lemma_sum_fits(s: Seq<EntryView>)
    requires
        amounts_valid(s),
        s.len() <= 0xFFFF_FFFF_FFFF_FFFF,
    ensures
        -100_000_000_000_000_000_000_000_000_000_000_000 < sum_amounts(s) < 100_000_000_000_000_000_000_000_000_000_000_000,
{
    lemma_sum_bounded(s);
    assert(s.len() * MAX_AMOUNT <= 0xFFFF_FFFF_FFFF_FFFF * MAX_AMOUNT) by (nonlinear_arith)
        requires s.len() <= 0xFFFF_FFFF_FFFF_FFFF;
    assert(MAX_AMOUNT == 1_000_000_000_000_000);
    assert(18_446_744_073_709_551_615int * 1_000_000_000_000_000int < 100_000_000_000_000_000_000_000_000_000_000_000int) by (nonlinear_arith);
}

/// Appending one entry adds its amount to the sum.
pub proof fn lemma_sum_push(s: Seq<EntryView>, e: EntryView)
    ensures
        sum_amounts(s.push(e)) == sum_amounts(s) + e.amount,
{
    assert(s.push(e).drop_last() =~= s);
}

/// Appending one entry adds its amount to the total of its own category only.
pub proof fn lemma_category_total_push(s: Seq<EntryView>, e: EntryView, c: Seq<char>)
    ensures
        category_total(s.push(e), c) == category_total(s, c) + if e.category == c {
            e.amount
        } else {
            0
        },
        has_category(s.push(e), c) == (has_category(s, c) || e.category == c),
{
    let t = s.push(e);
    assert(t.drop_last() =~= s);
    if has_category(s, c) {
        let i = choose|i: int| 0 <= i < s.len() && (#[trigger] s[i]).category == c;
        assert(t[i] == s[i]);
    }
    if e.category == c {
        assert(t[s.len() as int] == e);
    }
    if has_category(t, c) {
        let i = choose|i: int| 0 <= i < t.len() && (#[trigger] t[i]).category == c;
        if i < s.len() {
            assert(t[i] == s[i]);
        }
    }
}

/// A category that no entry carries totals zero.
pub proof fn lemma_category_total_absent(s: Seq<EntryView>, c: Seq<char>)
    requires
        !has_category(s, c),
    ensures
        category_total(s, c) == 0,
    decreases s.len(),
{
    if s.len() > 0 {
        let t = s.drop_last();
        assert(s =~= t.push(s.last()));
        lemma_category_total_push(t, s.last(), c);
        lemma_category_total_absent(t, c);
    }
}

/// A per-category total of valid amounts is bounded like the full sum.
pub proof fn lemma_category_total_bounded(s: Seq<EntryView>, c: Seq<char>)
    requires
        amounts_valid(s),
    ensures
        -(s.len() * MAX_AMOUNT) <= category_total(s, c) <= s.len() * MAX_AMOUNT,
    decreases s.len(),
{
    if s.len() > 0 {
        let t = s.drop_last();
        assert(amounts_valid(t)) by {
            assert forall|i: int| 0 <= i < t.len() implies valid_amount(#[trigger] t[i].amount) by {
                assert(t[i] == s[i]);
            }
        }
        lemma_category_total_bounded(t, c);
        assert(valid_amount(s[s.len() - 1].amount));
        assert(s.len() * MAX_AMOUNT == t.len() * MAX_AMOUNT + MAX_AMOUNT) by (nonlinear_arith)
            requires s.len() == t.len() + 1;
    }
}

/// A per-category total over at most `u64::MAX` valid entries stays inside `i128`.
pub proof fn lemma_category_total_fits(s: Seq<EntryView>, c: Seq<char>)
    requires
        amounts_valid(s),
        s.len() <= 0xFFFF_FFFF_FFFF_FFFF,
    ensures
        -100_000_000_000_000_000_000_000_000_000_000_000 < category_total(s, c) < 100_000_000_000_000_000_000_000_000_000_000_000,
{
    lemma_category_total_bounded(s, c);
    assert(s.len() * MAX_AMOUNT <= 0xFFFF_FFFF_FFFF_FFFF * MAX_AMOUNT) by (nonlinear_arith)
        requires s.len() <= 0xFFFF_FFFF_FFFF_FFFF;
    assert(18_446_744_073_709_551_615int * 1_000_000_000_000_000int < 100_000_000_000_000_000_000_000_000_000_000_000int) by (nonlinear_arith);
}

/// The entries kept by a filter over a one-longer prefix.
/// Filtering a one-longer prefix keeps what filtering the prefix kept,
/// plus the new entry when its category differs from `c`.
pub proof fn lemma_without_category_step(s: Seq<EntryView>, i: int, c: Seq<char>)
    requires
        0 <= i < s.len(),
    ensures
        without_category(s.take(i + 1), c) == if s[i].category != c {
            without_category(s.take(i), c).push(s[i])
        } else {
            without_category(s.take(i), c)
        },
{
    reveal(Seq::filter);
    assert(s.take(i + 1).drop_last() =~= s.take(i));
    assert(s.take(i + 1).last() == s[i]);
}

/// The total of entries recorded in two batches is the sum of the two
/// batches' totals, whichever batch comes first: totals do not depend on
/// the order of the calls that recorded the entries.
pub proof fn law_totals_independent_of_order(a: Seq<EntryView>, b: Seq<EntryView>)
    ensures
        sum_amounts(a + b) == sum_amounts(a) + sum_amounts(b),
        sum_amounts(a + b) == sum_amounts(b + a),
{
    lemma_sum_concat(a, b);
    lemma_sum_concat(b, a);
}

/// The sum over a concatenation is the sum of the two sums.
pub proof fn lemma_sum_concat(a: Seq<EntryView>, b: Seq<EntryView>)
    ensures
        sum_amounts(a + b) == sum_amounts(a) + sum_amounts(b),
    decreases b.len(),
{
    if b.len() == 0 {
        assert(a + b =~= a);
    } else {
        let c = b.drop_last();
        lemma_sum_concat(a, c);
        assert((a + b).drop_last() =~= a + c);
        assert((a + b).last() == b.last());
    }
}

} // verus!
