//! How serve requests are matched against the outstanding items.

use vstd::multiset::Multiset;
use vstd::prelude::*;
use crate::domain::model::{
    all_outstanding, evolve_spec, first_match, lemma_first_match_absent, lemma_first_match_found,
    lemma_first_match_is_least, remaining_after, serve_all, serve_one, Account, EventView,
    OrderedItemView, StateView,
};

verus! {

/// The menu numbers of the items, in the same order.
pub open spec fn numbers_of(items: Seq<OrderedItemView>) -> Seq<i32> {
    items.map_values(|item: OrderedItemView| item.menu_number)
}

/// Taking out an item with another number moves the first match of a number
/// by at most one place and never hides or reveals one.
pub proof fn lemma_first_match_after_remove(items: Seq<OrderedItemView>, i: int, menu_number: i32)
    requires
        0 <= i < items.len(),
        items[i].menu_number != menu_number,
    ensures
        first_match(items.remove(i), menu_number) == match first_match(items, menu_number) {
            Some(j) => Some(
                if j < i {
                    j
                } else {
                    j - 1
                },
            ),
            None => None,
        },
{
    let rest = items.remove(i);
    lemma_first_match_is_least(items, menu_number);
    match first_match(items, menu_number) {
        Some(j) => {
            let k = if j < i {
                j
            } else {
                j - 1
            };
            assert(rest[k] == items[j]);
            assert forall|m: int| 0 <= m < k implies rest[m].menu_number != menu_number by {
                if m < i {
                    assert(rest[m] == items[m]);
                } else {
                    assert(rest[m] == items[m + 1]);
                }
            }
            lemma_first_match_found(rest, menu_number, k);
        },
        None => {
            assert forall|m: int| 0 <= m < rest.len() implies rest[m].menu_number
                != menu_number by {
                if m < i {
                    assert(rest[m] == items[m]);
                } else {
                    assert(rest[m] == items[m + 1]);
                }
            }
            lemma_first_match_absent(rest, menu_number);
        },
    }
}

/// Two serves, one after the other, give the same account in either order.
pub proof fn lemma_serve_one_commutes(account: Account, first: i32, second: i32)
    ensures
        serve_one(serve_one(account, first), second) == serve_one(
            serve_one(account, second),
            first,
        ),
{
    if first != second {
        let items = account.outstanding;
        lemma_first_match_is_least(items, first);
        lemma_first_match_is_least(items, second);
        match (first_match(items, first), first_match(items, second)) {
            (Some(i), Some(j)) => {
                lemma_first_match_after_remove(items, i, second);
                lemma_first_match_after_remove(items, j, first);
                let j_after = if j < i {
                    j
                } else {
                    j - 1
                };
                let i_after = if i < j {
                    i
                } else {
                    i - 1
                };
                assert(items.remove(i).remove(j_after) =~= items.remove(j).remove(i_after));
                assert(items.remove(i)[j_after] == items[j]);
                assert(items.remove(j)[i_after] == items[i]);
            },
            (Some(i), None) => {
                lemma_first_match_after_remove(items, i, second);
            },
            (None, Some(j)) => {
                lemma_first_match_after_remove(items, j, first);
            },
            (None, None) => {},
        }
    }
}

/// Serving a sequence of numbers is serving it without one of them, and
/// that one last.
pub proof fn lemma_serve_all_any_last(account: Account, menu_numbers: Seq<i32>, k: int)
    requires
        0 <= k < menu_numbers.len(),
    ensures
        serve_all(account, menu_numbers) == serve_one(
            serve_all(account, menu_numbers.remove(k)),
            menu_numbers[k],
        ),
    decreases menu_numbers.len(),
{
    let shorter = menu_numbers.drop_last();
    if k == menu_numbers.len() - 1 {
        assert(menu_numbers.remove(k) =~= shorter);
    } else {
        lemma_serve_all_any_last(account, shorter, k);
        lemma_serve_one_commutes(
            serve_all(account, shorter.remove(k)),
            menu_numbers[k],
            menu_numbers.last(),
        );
        assert(menu_numbers.remove(k).drop_last() =~= shorter.remove(k));
        assert(menu_numbers.remove(k).last() == menu_numbers.last());
    }
}

/// The order in which numbers are served does not matter: two sequences
/// that hold the same numbers the same number of times leave the same
/// outstanding items and the same served value.
pub proof fn lemma_serve_order_is_irrelevant(
    account: Account,
    menu_numbers: Seq<i32>,
    reordered: Seq<i32>,
)
    requires
        menu_numbers.to_multiset() == reordered.to_multiset(),
    ensures
        serve_all(account, menu_numbers) == serve_all(account, reordered),
    decreases reordered.len(),
{
    menu_numbers.to_multiset_ensures();
    reordered.to_multiset_ensures();
    if reordered.len() > 0 {
        let last = reordered.last();
        assert(reordered.contains(last)) by {
            assert(reordered[reordered.len() - 1] == last);
        }
        assert(menu_numbers.to_multiset().count(last) > 0);
        assert(menu_numbers.contains(last));
        let k = choose|k: int| 0 <= k < menu_numbers.len() && menu_numbers[k] == last;
        assert(reordered.drop_last() =~= reordered.remove(reordered.len() - 1));
        assert(menu_numbers.remove(k).to_multiset() =~= reordered.drop_last().to_multiset());
        lemma_serve_order_is_irrelevant(account, menu_numbers.remove(k), reordered.drop_last());
        lemma_serve_all_any_last(account, menu_numbers, k);
    }
}

/// A serve event leaves the same state whatever the order of its numbers.
pub proof fn lemma_served_order_is_irrelevant(
    state: StateView,
    menu_numbers: Seq<i32>,
    reordered: Seq<i32>,
)
    requires
        menu_numbers.to_multiset() == reordered.to_multiset(),
    ensures
        evolve_spec(state, EventView::DrinksServed { menu_numbers }) == evolve_spec(
            state,
            EventView::DrinksServed { menu_numbers: reordered },
        ),
        evolve_spec(state, EventView::FoodServed { menu_numbers }) == evolve_spec(
            state,
            EventView::FoodServed { menu_numbers: reordered },
        ),
{
    lemma_serve_order_is_irrelevant(
        Account { outstanding: state.outstanding_drinks, value: state.served_items_value },
        menu_numbers,
        reordered,
    );
    lemma_serve_order_is_irrelevant(
        Account { outstanding: state.outstanding_food, value: state.served_items_value },
        menu_numbers,
        reordered,
    );
}

/// What the matching scan leaves. If every request found an item, the
/// numbers that remain are those that were outstanding less those requested,
/// counted with their repetitions; and a request fails to find an item
/// exactly when the numbers are requested more often than they are
/// outstanding.
pub proof fn lemma_remaining_numbers(items: Seq<OrderedItemView>, menu_numbers: Seq<i32>)
    ensures
        match remaining_after(items, menu_numbers) {
            Some(rest) => {
                &&& menu_numbers.to_multiset().subset_of(numbers_of(items).to_multiset())
                &&& numbers_of(rest).to_multiset() == numbers_of(items).to_multiset().sub(
                    menu_numbers.to_multiset(),
                )
                &&& rest.len() == items.len() - menu_numbers.len()
            },
            None => !menu_numbers.to_multiset().subset_of(numbers_of(items).to_multiset()),
        },
    decreases menu_numbers.len(),
{
    let outstanding = numbers_of(items).to_multiset();
    if menu_numbers.len() == 0 {
        menu_numbers.to_multiset_ensures();
        assert(menu_numbers.to_multiset() =~= Multiset::<i32>::empty());
        assert(outstanding.sub(menu_numbers.to_multiset()) =~= outstanding);
    } else {
        let earlier = menu_numbers.drop_last();
        let last = menu_numbers.last();
        lemma_remaining_numbers(items, earlier);
        earlier.to_multiset_ensures();
        assert(earlier.push(last) =~= menu_numbers);
        assert(menu_numbers.to_multiset() =~= earlier.to_multiset().insert(last));
        match remaining_after(items, earlier) {
            Some(rest) => {
                let left = numbers_of(rest);
                left.to_multiset_ensures();
                lemma_first_match_is_least(rest, last);
                match first_match(rest, last) {
                    Some(i) => {
                        assert(left[i] == last);
                        assert(left.contains(last));
                        assert(numbers_of(rest.remove(i)) =~= left.remove(i));
                        assert(left.remove(i).to_multiset() =~= outstanding.sub(
                            menu_numbers.to_multiset(),
                        ));
                        assert(left.to_multiset().count(last) > 0);
                        assert(outstanding.count(last) > earlier.to_multiset().count(last));
                        assert forall|n: i32|
                            menu_numbers.to_multiset().count(n) <= outstanding.count(n) by {
                            assert(earlier.to_multiset().count(n) <= outstanding.count(n));
                        }
                        assert(menu_numbers.to_multiset().subset_of(outstanding));
                    },
                    None => {
                        if left.contains(last) {
                            let j = choose|j: int| 0 <= j < left.len() && left[j] == last;
                            assert(rest[j].menu_number == last);
                        }
                        assert(left.to_multiset().count(last) == 0);
                        assert(menu_numbers.to_multiset().count(last) > outstanding.count(last));
                    },
                }
            },
            None => {
                let short = choose|n: i32|
                    earlier.to_multiset().count(n) > outstanding.count(n);
                assert(menu_numbers.to_multiset().count(short) > outstanding.count(short));
            },
        }
    }
}

/// The requested numbers can all be matched exactly when each number is
/// outstanding at least as often as it is requested.
pub proof fn lemma_all_outstanding_iff_enough(items: Seq<OrderedItemView>, menu_numbers: Seq<i32>)
    ensures
        all_outstanding(items, menu_numbers) <==> menu_numbers.to_multiset().subset_of(
            numbers_of(items).to_multiset(),
        ),
{
    lemma_remaining_numbers(items, menu_numbers);
}

/// Decision and evolution agree: where every requested number can be
/// matched, serving takes out exactly the items that the matching scan
/// consumed: one item for each request.
pub proof fn lemma_serve_takes_what_was_matched(account: Account, menu_numbers: Seq<i32>)
    requires
        all_outstanding(account.outstanding, menu_numbers),
    ensures
        Some(serve_all(account, menu_numbers).outstanding) == remaining_after(
            account.outstanding,
            menu_numbers,
        ),
        serve_all(account, menu_numbers).outstanding.len() == account.outstanding.len()
            - menu_numbers.len(),
    decreases menu_numbers.len(),
{
    if menu_numbers.len() > 0 {
        lemma_serve_takes_what_was_matched(account, menu_numbers.drop_last());
    }
    lemma_remaining_numbers(account.outstanding, menu_numbers);
}

/// Serving brings no item onto the outstanding list: whatever is
/// outstanding afterwards was outstanding before.
pub proof fn lemma_serve_all_only_removes(
    account: Account,
    menu_numbers: Seq<i32>,
    item: OrderedItemView,
)
    requires
        serve_all(account, menu_numbers).outstanding.contains(item),
    ensures
        account.outstanding.contains(item),
    decreases menu_numbers.len(),
{
    if menu_numbers.len() > 0 {
        let before = serve_all(account, menu_numbers.drop_last());
        let after = serve_one(before, menu_numbers.last());
        lemma_first_match_is_least(before.outstanding, menu_numbers.last());
        let k = choose|k: int| 0 <= k < after.outstanding.len() && after.outstanding[k] == item;
        match first_match(before.outstanding, menu_numbers.last()) {
            Some(i) => {
                if k < i {
                    assert(before.outstanding[k] == item);
                } else {
                    assert(before.outstanding[k + 1] == item);
                }
            },
            None => {},
        }
        lemma_serve_all_only_removes(account, menu_numbers.drop_last(), item);
    }
}

} // verus!
