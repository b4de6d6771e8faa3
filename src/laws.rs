use vstd::prelude::*;

use crate::bank::{
    abs, has_name, is_first_named, joined, lemma_position_is_first, merge_all, merge_fits,
    merge_one, merge_one_fits, position, transfer_failure, transferred, Bank, User,
};

verus! {

/// Every user's balance lies within its credit line.
pub open spec fn all_within_limits(users: Seq<User>) -> bool {
    forall|i: int| 0 <= i < users.len() ==> #[trigger] users[i].within_limit()
}

/// The users after a run of transfer requests (sender, receiver, amount), each applied as
/// `transfer_funds` applies it: a refused request leaves the users as they were.
pub open spec fn after_transfers(users: Seq<User>, requests: Seq<(Seq<char>, Seq<char>, u64)>) -> Seq<User>
    decreases requests.len(),
{
    if requests.len() == 0 {
        users
    } else {
        let before = after_transfers(users, requests.drop_last());
        let (from, to, amount) = requests.last();
        if transfer_failure(before, from, to, amount) is None {
            transferred(before, from, to, amount)
        } else {
            before
        }
    }
}

/// A position found by `position` holds the first user of that name.
pub proof fn lemma_position_found(users: Seq<User>, name: Seq<char>)
    requires
        position(users, name) >= 0,
    ensures
        is_first_named(users, name, position(users, name)),
{
}

/// A user called `name` at `i` means that `name` has a first position, at or before `i`.
pub proof fn lemma_named_is_found(users: Seq<User>, name: Seq<char>, i: int)
    requires
        0 <= i < users.len(),
        users[i].name@ == name,
    ensures
        0 <= position(users, name) <= i,
    decreases i,
{
    if forall|j: int| 0 <= j < i ==> users[j].name@ != name {
        lemma_position_is_first(users, name, i);
    } else {
        let j = choose|j: int| 0 <= j < i && users[j].name@ == name;
        lemma_named_is_found(users, name, j);
    }
}

/// A successful transfer leaves the sender and the receiver within their credit lines, and
/// every other user as it was.
pub proof fn lemma_transfer_keeps_limits(users: Seq<User>, from: Seq<char>, to: Seq<char>, amount: u64)
    requires
        transfer_failure(users, from, to, amount) is None,
        all_within_limits(users),
    ensures
        all_within_limits(transferred(users, from, to, amount)),
{
    let fi = position(users, from);
    let ti = position(users, to);
    let after = transferred(users, from, to, amount);
    assert(after.len() == users.len());
    assert forall|i: int| 0 <= i < after.len() implies #[trigger] after[i].within_limit() by {
        if i != fi && i != ti {
            assert(after[i] == users[i]);
            assert(users[i].within_limit());
        } else if fi == ti {
            assert(after[i].balance == users[fi].balance);
        } else if i == fi {
            assert(after[i].balance == users[fi].balance - amount);
        } else {
            assert(after[i].balance == users[ti].balance + amount);
        }
    }
}

/// Starting with every balance within its credit line, any run of transfers keeps every
/// balance within its credit line.
pub proof fn lemma_transfers_keep_limits(users: Seq<User>, requests: Seq<(Seq<char>, Seq<char>, u64)>)
    requires
        all_within_limits(users),
    ensures
        all_within_limits(after_transfers(users, requests)),
    decreases requests.len(),
{
    if requests.len() > 0 {
        lemma_transfers_keep_limits(users, requests.drop_last());
        let before = after_transfers(users, requests.drop_last());
        let (from, to, amount) = requests.last();
        if transfer_failure(before, from, to, amount) is None {
            lemma_transfer_keeps_limits(before, from, to, amount);
        }
    }
}

/// A successful transfer of `amount` between two users of different names takes `amount`
/// from the sender, gives it to the receiver, and keeps the sum of their balances.
pub proof fn lemma_transfer_conserves(users: Seq<User>, from: Seq<char>, to: Seq<char>, amount: u64)
    requires
        transfer_failure(users, from, to, amount) is None,
        from != to,
    ensures
        ({
            let fi = position(users, from);
            let ti = position(users, to);
            let after = transferred(users, from, to, amount);
            &&& fi != ti
            &&& after[fi].balance == users[fi].balance - amount
            &&& after[ti].balance == users[ti].balance + amount
            &&& after[fi].balance + after[ti].balance == users[fi].balance + users[ti].balance
        }),
{
    lemma_position_found(users, from);
    lemma_position_found(users, to);
}

/// A user after `n` accruals at `bank`'s rates.
pub open spec fn accrued_times(bank: Bank, u: User, n: nat) -> User
    decreases n,
{
    if n == 0 {
        u
    } else {
        bank.accrued(accrued_times(bank, u, (n - 1) as nat))
    }
}

/// A user with a zero balance is left as it is by any number of accruals.
pub proof fn lemma_zero_balance_accrues_nothing(bank: Bank, u: User, n: nat)
    requires
        u.balance == 0,
    ensures
        accrued_times(bank, u, n) == u,
    decreases n,
{
    if n > 0 {
        lemma_zero_balance_accrues_nothing(bank, u, (n - 1) as nat);
    }
}

/// How many incoming users find a namesake among `users` before the merge.
pub open spec fn collisions(users: Seq<User>, incoming: Seq<User>) -> int
    decreases incoming.len(),
{
    if incoming.len() == 0 {
        0
    } else {
        collisions(users, incoming.drop_last()) + if has_name(users, incoming.last().name@) {
            1int
        } else {
            0
        }
    }
}

/// `name` is a name of `users` exactly when some user of `users` is called so.
pub proof fn lemma_has_name_iff(users: Seq<User>, name: Seq<char>)
    ensures
        has_name(users, name) <==> exists|i: int| 0 <= i < users.len() && users[i].name@ == name,
{
    if exists|i: int| 0 <= i < users.len() && users[i].name@ == name {
        let i = choose|i: int| 0 <= i < users.len() && users[i].name@ == name;
        lemma_named_is_found(users, name, i);
    }
}

/// After one incoming user is merged, the names present are those from before and the
/// incoming one; the first position of a name already present does not move.
pub proof fn lemma_merge_one_names(users: Seq<User>, incoming: User, name: Seq<char>)
    ensures
        has_name(merge_one(users, incoming), name) <==> (has_name(users, name) || incoming.name@ == name),
        has_name(users, name) ==> position(merge_one(users, incoming), name) == position(users, name),
{
    let merged = merge_one(users, incoming);
    let p = position(users, incoming.name@);
    assert(forall|j: int| 0 <= j < users.len() ==> #[trigger] merged[j].name == users[j].name);
    lemma_has_name_iff(users, name);
    lemma_has_name_iff(merged, name);
    if p < 0 {
        assert(merged[users.len() as int] == incoming);
    } else {
        lemma_position_found(users, incoming.name@);
        assert(merged[p].name@ == incoming.name@);
    }
    if has_name(users, name) {
        let i = position(users, name);
        lemma_position_found(users, name);
        assert(is_first_named(merged, name, i));
        lemma_position_is_first(merged, name, i);
    }
}

/// After a merge the names present are those from before and the incoming ones; the first
/// position of a name already present does not move.
pub proof fn lemma_merge_all_names(users: Seq<User>, incoming: Seq<User>, name: Seq<char>)
    ensures
        has_name(merge_all(users, incoming), name) <==> (has_name(users, name) || exists|k: int|
            0 <= k < incoming.len() && incoming[k].name@ == name),
        has_name(users, name) ==> position(merge_all(users, incoming), name) == position(users, name),
    decreases incoming.len(),
{
    if incoming.len() > 0 {
        let rest = incoming.drop_last();
        lemma_merge_all_names(users, rest, name);
        lemma_merge_one_names(merge_all(users, rest), incoming.last(), name);
        if exists|k: int| 0 <= k < incoming.len() && incoming[k].name@ == name {
            let k = choose|k: int| 0 <= k < incoming.len() && incoming[k].name@ == name;
            if k < rest.len() {
                assert(rest[k].name@ == name);
            }
        }
        if exists|k: int| 0 <= k < rest.len() && rest[k].name@ == name {
            let k = choose|k: int| 0 <= k < rest.len() && rest[k].name@ == name;
            assert(incoming[k].name@ == name);
        }
    }
}

/// A merge leaves as many users as there were on both sides, less the incoming users that
/// found a namesake. This holds when no two incoming users share a name that the receiving
/// side lacks: the second of them would join the first rather than be counted apart.
pub proof fn lemma_merge_count(users: Seq<User>, incoming: Seq<User>)
    requires
        forall|j: int, k: int|
            #![trigger incoming[j], incoming[k]]
            0 <= j < k < incoming.len() && incoming[j].name@ == incoming[k].name@ ==> has_name(
                users,
                incoming[k].name@,
            ),
    ensures
        merge_all(users, incoming).len() == users.len() + incoming.len() - collisions(users, incoming),
    decreases incoming.len(),
{
    if incoming.len() > 0 {
        let rest = incoming.drop_last();
        let last = incoming.last();
        lemma_merge_count(users, rest);
        lemma_merge_all_names(users, rest, last.name@);
        if !has_name(users, last.name@) {
            if exists|k: int| 0 <= k < rest.len() && rest[k].name@ == last.name@ {
                let k = choose|k: int| 0 <= k < rest.len() && rest[k].name@ == last.name@;
                assert(incoming[k].name@ == incoming[incoming.len() - 1].name@);
            }
        }
    }
}

/// A merge in which no incoming user is called `name` leaves the first user of that name as
/// it was.
pub proof fn lemma_merge_untouched(users: Seq<User>, incoming: Seq<User>, name: Seq<char>)
    requires
        has_name(users, name),
        forall|k: int| 0 <= k < incoming.len() ==> #[trigger] incoming[k].name@ != name,
    ensures
        merge_all(users, incoming)[position(users, name)] == users[position(users, name)],
    decreases incoming.len(),
{
    if incoming.len() > 0 {
        let rest = incoming.drop_last();
        let last = incoming.last();
        let before = merge_all(users, rest);
        let i = position(users, name);
        assert(forall|k: int| 0 <= k < rest.len() ==> #[trigger] rest[k] == incoming[k]);
        lemma_merge_untouched(users, rest, name);
        lemma_merge_all_names(users, rest, name);
        lemma_position_found(users, name);
        lemma_position_found(before, name);
        let p = position(before, last.name@);
        if p >= 0 {
            lemma_position_found(before, last.name@);
            assert(incoming[incoming.len() - 1].name@ != name);
            assert(p != i);
        }
    }
}

/// When exactly one incoming user is called like a user of the receiving side, the first
/// user of that name ends with the sum of both balances and the sum of both credit lines.
pub proof fn lemma_merge_joins(users: Seq<User>, incoming: Seq<User>, k: int)
    requires
        0 <= k < incoming.len(),
        has_name(users, incoming[k].name@),
        forall|j: int| 0 <= j < incoming.len() && j != k ==> #[trigger] incoming[j].name@ != incoming[k].name@,
        merge_fits(users, incoming),
    ensures
        ({
            let i = position(users, incoming[k].name@);
            let merged = merge_all(users, incoming);
            &&& merged[i].name == users[i].name
            &&& merged[i].balance == users[i].balance + incoming[k].balance
            &&& merged[i].credit_line == users[i].credit_line + incoming[k].credit_line
        }),
    decreases incoming.len(),
{
    let name = incoming[k].name@;
    let rest = incoming.drop_last();
    let last = incoming.last();
    let before = merge_all(users, rest);
    let i = position(users, name);
    assert(forall|j: int| 0 <= j < rest.len() ==> #[trigger] rest[j] == incoming[j]);
    lemma_merge_all_names(users, rest, name);
    lemma_position_found(users, name);
    if k == incoming.len() - 1 {
        lemma_merge_untouched(users, rest, name);
        assert(position(before, last.name@) == i);
        assert(merge_one_fits(before, last));
    } else {
        assert(rest[k].name@ == name);
        lemma_merge_joins(users, rest, k);
        let p = position(before, last.name@);
        assert(incoming[incoming.len() - 1].name@ != name);
        if p >= 0 {
            lemma_position_found(before, last.name@);
            lemma_position_found(before, name);
            assert(p != i);
        }
    }
}

} // verus!
