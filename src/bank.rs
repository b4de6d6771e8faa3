use vstd::prelude::*;
use vstd::string::StringExecFns;

verus! {

/// One participant of a bank: a name, a credit line and a signed balance.
/// A positive balance is a debit, a negative one a credit.
#[derive(Debug, Clone, PartialEq, Eq)]
pub struct User {
    pub name: String,
    pub credit_line: u64,
    pub balance: i64,
}

/// A bank: a name, its users in insertion order, and two interest rates in basis points.
#[derive(Debug, Clone, PartialEq)]
pub struct Bank {
    pub name: String,
    pub users: Vec<User>,
    pub credit_interest: u64,
    pub debit_interest: u64,
}

/// Why a transfer was refused; each variant carries the name of the user at fault.
#[derive(Debug)]
pub enum TransferError {
    UserNotFound(String),
    InsufficientFunds(String),
    CreditLimitExceeded(String),
}

/// The mathematical counterpart of [`TransferError`].
pub enum TransferFailure {
    UserNotFound(Seq<char>),
    InsufficientFunds(Seq<char>),
    CreditLimitExceeded(Seq<char>),
}

impl View for TransferError {
    type V = TransferFailure;

    open spec fn view(&self) -> TransferFailure {
        match self {
            TransferError::UserNotFound(n) => TransferFailure::UserNotFound(n@),
            TransferError::InsufficientFunds(n) => TransferFailure::InsufficientFunds(n@),
            TransferError::CreditLimitExceeded(n) => TransferFailure::CreditLimitExceeded(n@),
        }
    }
}

impl TransferFailure {
    /// The sentence that describes the failure.
    pub open spec fn message(self) -> Seq<char> {
        match self {
            TransferFailure::UserNotFound(n) => "User "@ + n + " not found"@,
            TransferFailure::InsufficientFunds(n) => "User "@ + n + " has insufficient funds"@,
            TransferFailure::CreditLimitExceeded(n) => "User "@ + n + " would exceed credit line"@,
        }
    }
}

impl TransferError {
    /// The sentence that describes the failure, naming the user at fault.
    pub fn message(&self) -> (r: String)
        ensures
            r@ == self@.message(),
    {
        let mut s = String::from_str("User ");
        match self {
            TransferError::UserNotFound(n) => {
                s.append(n.as_str());
                s.append(" not found");
            },
            TransferError::InsufficientFunds(n) => {
                s.append(n.as_str());
                s.append(" has insufficient funds");
            },
            TransferError::CreditLimitExceeded(n) => {
                s.append(n.as_str());
                s.append(" would exceed credit line");
            },
        }
        s
    }
}

pub open spec fn abs(x: int) -> int {
    if x < 0 {
        -x
    } else {
        x
    }
}

impl User {
    /// Whether the balance lies within the credit line on either side of zero.
    pub open spec fn within_limit(self) -> bool {
        abs(self.balance as int) <= self.credit_line
    }

    /// The same user with another balance.
    pub open spec fn with_balance(self, balance: int) -> User {
        User { name: self.name, credit_line: self.credit_line, balance: balance as i64 }
    }

    /// Builds a user; no check against the credit line is made.
    pub fn new(name: String, credit_line: u64, balance: i64) -> (r: User)
        ensures
            r.name == name,
            r.credit_line == credit_line,
            r.balance == balance,
    {
        User { name, credit_line, balance }
    }
}

/// `i` is the first position in `users` that holds a user called `name`.
pub open spec fn is_first_named(users: Seq<User>, name: Seq<char>, i: int) -> bool {
    &&& 0 <= i < users.len()
    &&& users[i].name@ == name
    &&& forall|j: int| 0 <= j < i ==> users[j].name@ != name
}

/// The first position of a user called `name`, or -1 when there is none.
pub open spec fn position(users: Seq<User>, name: Seq<char>) -> int {
    if exists|i: int| is_first_named(users, name, i) {
        choose|i: int| is_first_named(users, name, i)
    } else {
        -1
    }
}

/// There is at most one first position.
pub proof fn lemma_position_is_first(users: Seq<User>, name: Seq<char>, i: int)
    requires
        is_first_named(users, name, i),
    ensures
        position(users, name) == i,
{
    let k = position(users, name);
    assert(is_first_named(users, name, k));
    if k < i {
        assert(users[k].name@ != name);
    } else if i < k {
        assert(users[i].name@ != name);
    }
}

/// Whether some user of `users` is called `name`.
pub open spec fn has_name(users: Seq<User>, name: Seq<char>) -> bool {
    position(users, name) >= 0
}

/// The first failing check of a transfer, or `None` when the transfer may go ahead.
/// The checks run in this order: the sender exists, the receiver exists, the sender's
/// balance covers the amount, the sender stays within its credit line, the receiver
/// stays within its credit line (and its new balance fits an `i64`).
pub open spec fn transfer_failure(users: Seq<User>, from: Seq<char>, to: Seq<char>, amount: u64) -> Option<TransferFailure> {
    let fi = position(users, from);
    let ti = position(users, to);
    if fi < 0 {
        Some(TransferFailure::UserNotFound(from))
    } else if ti < 0 {
        Some(TransferFailure::UserNotFound(to))
    } else if users[fi].balance < amount {
        Some(TransferFailure::InsufficientFunds(from))
    } else if abs(users[fi].balance - amount) > users[fi].credit_line {
        Some(TransferFailure::CreditLimitExceeded(from))
    } else if abs(users[ti].balance + amount) > users[ti].credit_line
        || users[ti].balance + amount > i64::MAX {
        Some(TransferFailure::CreditLimitExceeded(to))
    } else {
        None
    }
}

/// The users after `amount` has been taken from the sender and then given to the receiver.
pub open spec fn transferred(users: Seq<User>, from: Seq<char>, to: Seq<char>, amount: u64) -> Seq<User> {
    let fi = position(users, from);
    let ti = position(users, to);
    let mid = users.update(fi, users[fi].with_balance(users[fi].balance - amount));
    mid.update(ti, mid[ti].with_balance(mid[ti].balance + amount))
}

/// Sum of the positive balances: what the bank holds for its users.
pub open spec fn liabilities(users: Seq<User>) -> int
    decreases users.len(),
{
    if users.len() == 0 {
        0
    } else {
        liabilities(users.drop_last()) + if users.last().balance > 0 {
            users.last().balance as int
        } else {
            0
        }
    }
}

/// Sum of the magnitudes of the negative balances: what the bank is owed.
pub open spec fn assets(users: Seq<User>) -> int
    decreases users.len(),
{
    if users.len() == 0 {
        0
    } else {
        assets(users.drop_last()) + if users.last().balance < 0 {
            -(users.last().balance as int)
        } else {
            0
        }
    }
}

/// Both sums grow with the prefix of users that they cover.
pub proof fn lemma_sums_monotone(users: Seq<User>, i: int, j: int)
    requires
        0 <= i <= j <= users.len(),
    ensures
        liabilities(users.take(i)) <= liabilities(users.take(j)),
        assets(users.take(i)) <= assets(users.take(j)),
    decreases j - i,
{
    if i < j {
        lemma_sums_monotone(users, i, j - 1);
        assert(users.take(j).drop_last() =~= users.take(j - 1));
    }
}

/// Rounds `amount * rate / 10000` half up, for a non-negative amount and rate in basis points.
pub open spec fn interest_on(amount: int, rate: int) -> int {
    (amount * rate + 5000) / 10000
}

/// A balance after one accrual: debit balances grow by the debit rate, credit balances
/// grow in magnitude by the credit rate, a zero balance stays zero.
pub open spec fn accrued_balance(balance: int, debit_rate: int, credit_rate: int) -> int {
    if balance > 0 {
        balance + interest_on(balance, debit_rate)
    } else if balance < 0 {
        balance - interest_on(-balance, credit_rate)
    } else {
        0
    }
}

impl Bank {
    /// The user after one accrual at this bank's rates.
    pub open spec fn accrued(self, u: User) -> User {
        u.with_balance(accrued_balance(u.balance as int, self.debit_interest as int, self.credit_interest as int))
    }

    /// Every accrued balance fits an `i64`.
    pub open spec fn accrual_fits(self) -> bool {
        forall|i: int|
            0 <= i < self.users@.len() ==> i64::MIN <= #[trigger] accrued_balance(
                self.users@[i].balance as int,
                self.debit_interest as int,
                self.credit_interest as int,
            ) <= i64::MAX
    }
}

/// A user that already exists, after an incoming user of the same name joined it:
/// balances and credit lines add up.
pub open spec fn joined(u: User, incoming: User) -> User {
    User {
        name: u.name,
        credit_line: (u.credit_line + incoming.credit_line) as u64,
        balance: (u.balance + incoming.balance) as i64,
    }
}

/// The users after one incoming user is merged in: joined to the first user of the same
/// name, or appended when there is none.
pub open spec fn merge_one(users: Seq<User>, incoming: User) -> Seq<User> {
    let i = position(users, incoming.name@);
    if i >= 0 {
        users.update(i, joined(users[i], incoming))
    } else {
        users.push(incoming)
    }
}

/// The users after the incoming users are merged in, one after the other.
pub open spec fn merge_all(users: Seq<User>, incoming: Seq<User>) -> Seq<User>
    decreases incoming.len(),
{
    if incoming.len() == 0 {
        users
    } else {
        merge_one(merge_all(users, incoming.drop_last()), incoming.last())
    }
}

/// Joining `incoming` to its namesake in `users`, if any, keeps both sums in range.
pub open spec fn merge_one_fits(users: Seq<User>, incoming: User) -> bool {
    let i = position(users, incoming.name@);
    i >= 0 ==> {
        &&& i64::MIN <= users[i].balance + incoming.balance <= i64::MAX
        &&& users[i].credit_line + incoming.credit_line <= u64::MAX
    }
}

/// Every step of the merge keeps its sums in range.
pub open spec fn merge_fits(users: Seq<User>, incoming: Seq<User>) -> bool
    decreases incoming.len(),
{
    incoming.len() == 0 || (merge_fits(users, incoming.drop_last()) && merge_one_fits(
        merge_all(users, incoming.drop_last()),
        incoming.last(),
    ))
}

/// The fit of a merge holds of each of its prefixes.
pub proof fn lemma_merge_fits_prefix(users: Seq<User>, incoming: Seq<User>, k: int)
    requires
        0 <= k <= incoming.len(),
        merge_fits(users, incoming),
    ensures
        merge_fits(users, incoming.take(k)),
    decreases incoming.len() - k,
{
    if k < incoming.len() {
        lemma_merge_fits_prefix(users, incoming.drop_last(), k);
        assert(incoming.drop_last().take(k) =~= incoming.take(k));
    } else {
        assert(incoming.take(k) =~= incoming);
    }
}

/// Finds the first user called `name`.
fn index_of(users: &Vec<User>, name: &String) -> (r: Option<usize>)
    ensures
        match r {
            Some(i) => i as int == position(users@, name@) && i < users.len(),
            None => position(users@, name@) == -1,
        },
{
    let mut i: usize = 0;
    while i < users.len()
        invariant
            i <= users.len(),
            forall|j: int| 0 <= j < i ==> users@[j].name@ != name@,
        decreases users.len() - i,
    {
        if users[i].name == *name {
            proof {
                lemma_position_is_first(users@, name@, i as int);
            }
            return Some(i);
        }
        i += 1;
    }
    proof {
        assert(!exists|k: int| is_first_named(users@, name@, k));
    }
    None
}

impl Bank {
    /// Builds a bank with no users.
    pub fn new(name: String, credit_interest: u64, debit_interest: u64) -> (r: Bank)
        ensures
            r.name == name,
            r.users@.len() == 0,
            r.credit_interest == credit_interest,
            r.debit_interest == debit_interest,
    {
        Bank { name, users: Vec::new(), credit_interest, debit_interest }
    }

    /// Appends a user; names are not checked for duplicates.
    pub fn add_user(&mut self, user: User)
        ensures
            final(self).users@ == old(self).users@.push(user),
            final(self).name == old(self).name,
            final(self).credit_interest == old(self).credit_interest,
            final(self).debit_interest == old(self).debit_interest,
    {
        self.users.push(user);
    }

    /// The first user called `name`, if any.
    pub fn find_by_name(&self, name: &str) -> (r: Option<&User>)
        ensures
            match r {
                Some(u) => has_name(self.users@, name@) && *u == self.users@[position(self.users@, name@)],
                None => !has_name(self.users@, name@),
            },
    {
        let key = name.to_owned();
        match index_of(&self.users, &key) {
            Some(i) => Some(&self.users[i]),
            None => None,
        }
    }

    /// The total of positive balances and the total magnitude of negative balances.
    pub fn calc_balance(&self) -> (r: (u64, u64))
        requires
            liabilities(self.users@) <= u64::MAX,
            assets(self.users@) <= u64::MAX,
        ensures
            r.0 == liabilities(self.users@),
            r.1 == assets(self.users@),
    {
        let mut total_liabilities: u64 = 0;
        let mut total_assets: u64 = 0;
        let mut i: usize = 0;
        while i < self.users.len()
            invariant
                i <= self.users@.len(),
                total_liabilities == liabilities(self.users@.take(i as int)),
                total_assets == assets(self.users@.take(i as int)),
                liabilities(self.users@) <= u64::MAX,
                assets(self.users@) <= u64::MAX,
            decreases self.users@.len() - i,
        {
            proof {
                lemma_sums_monotone(self.users@, i + 1, self.users@.len() as int);
                assert(self.users@.take(i + 1).drop_last() =~= self.users@.take(i as int));
                assert(self.users@.take(self.users@.len() as int) =~= self.users@);
            }
            let balance = self.users[i].balance;
            if balance > 0 {
                total_liabilities = total_liabilities + balance as u64;
            } else {
                total_assets = total_assets + (0 - balance as i128) as u64;
            }
            i += 1;
        }
        proof {
            assert(self.users@.take(i as int) =~= self.users@);
        }
        (total_liabilities, total_assets)
    }

    /// Applies one period of interest to every user, each on its own balance.
    /// The credit line is not checked afterwards.
    pub fn accrue_interest(&mut self)
        requires
            old(self).accrual_fits(),
        ensures
            final(self).users@ == old(self).users@.map_values(|u: User| old(self).accrued(u)),
            final(self).name == old(self).name,
            final(self).credit_interest == old(self).credit_interest,
            final(self).debit_interest == old(self).debit_interest,
    {
        let n = self.users.len();
        let debit = self.debit_interest;
        let credit = self.credit_interest;
        let mut i: usize = 0;
        while i < n
            invariant
                n == old(self).users@.len(),
                self.users@.len() == n,
                i <= n,
                debit == old(self).debit_interest,
                credit == old(self).credit_interest,
                self.name == old(self).name,
                self.credit_interest == old(self).credit_interest,
                self.debit_interest == old(self).debit_interest,
                old(self).accrual_fits(),
                forall|j: int| 0 <= j < i ==> self.users@[j] == old(self).accrued(old(self).users@[j]),
                forall|j: int| i <= j < n ==> self.users@[j] == old(self).users@[j],
            decreases n - i,
        {
            let balance = self.users[i].balance;
            proof {
                assert(i64::MIN <= accrued_balance(balance as int, debit as int, credit as int) <= i64::MAX);
            }
            if balance > 0 {
                let b = balance as u128;
                let d = debit as u128;
                assert(b * d <= 0x7fff_ffff_ffff_ffffu128 * 0xffff_ffff_ffff_ffffu128) by (nonlinear_arith)
                    requires
                        b <= 0x7fff_ffff_ffff_ffffu128,
                        d <= 0xffff_ffff_ffff_ffffu128,
                ;
                let interest = (b * d + 5000) / 10000;
                self.users[i].balance = (balance as i128 + interest as i128) as i64;
            } else if balance < 0 {
                let b = (0 - balance as i128) as u128;
                let c = credit as u128;
                assert(b * c <= 0x8000_0000_0000_0000u128 * 0xffff_ffff_ffff_ffffu128) by (nonlinear_arith)
                    requires
                        b <= 0x8000_0000_0000_0000u128,
                        c <= 0xffff_ffff_ffff_ffffu128,
                ;
                let interest = (b * c + 5000) / 10000;
                self.users[i].balance = (balance as i128 - interest as i128) as i64;
            }
            i += 1;
        }
        proof {
            assert(self.users@ =~= old(self).users@.map_values(|u: User| old(self).accrued(u)));
        }
    }

    /// Takes in every user of `other`: one whose name is already here joins the first user
    /// of that name (balances and credit lines add up), any other is appended.
    /// `other`'s name and rates are dropped.
    pub fn merge_bank(&mut self, other: Bank)
        requires
            merge_fits(old(self).users@, other.users@),
        ensures
            final(self).users@ == merge_all(old(self).users@, other.users@),
            final(self).name == old(self).name,
            final(self).credit_interest == old(self).credit_interest,
            final(self).debit_interest == old(self).debit_interest,
    {
        let ghost incoming = other.users@;
        for other_user in it: other.users
            invariant
                it.seq() == incoming,
                merge_fits(old(self).users@, incoming),
                self.users@ == merge_all(old(self).users@, incoming.take(it.index())),
                self.name == old(self).name,
                self.credit_interest == old(self).credit_interest,
                self.debit_interest == old(self).debit_interest,
        {
            proof {
                let k = it.index();
                assert(incoming.take(k + 1).drop_last() =~= incoming.take(k));
                lemma_merge_fits_prefix(old(self).users@, incoming, k + 1);
            }
            match index_of(&self.users, &other_user.name) {
                Some(i) => {
                    let b = self.users[i].balance;
                    let c = self.users[i].credit_line;
                    self.users[i].balance = b + other_user.balance;
                    self.users[i].credit_line = c + other_user.credit_line;
                },
                None => {
                    self.users.push(other_user);
                },
            }
        }
        proof {
            assert(incoming.take(incoming.len() as int) =~= incoming);
        }
    }

    /// Moves `amount` from the user called `from_name` to the user called `to_name`.
    /// Every check is made before anything changes: on failure the bank is left as it was.
    pub fn transfer_funds(&mut self, from_name: &str, to_name: &str, amount: u64) -> (r: Result<(), TransferError>)
        ensures
            r is Ok <==> transfer_failure(old(self).users@, from_name@, to_name@, amount) is None,
            r is Ok ==> final(self).users@ == transferred(old(self).users@, from_name@, to_name@, amount),
            r is Ok ==> final(self).name == old(self).name
                && final(self).credit_interest == old(self).credit_interest
                && final(self).debit_interest == old(self).debit_interest,
            r is Err ==> transfer_failure(old(self).users@, from_name@, to_name@, amount) == Some(r->Err_0@),
            r is Err ==> *final(self) == *old(self),
    {
        let from_key = from_name.to_owned();
        let to_key = to_name.to_owned();
        let from_idx = match index_of(&self.users, &from_key) {
            Some(i) => i,
            None => return Err(TransferError::UserNotFound(from_key)),
        };
        let to_idx = match index_of(&self.users, &to_key) {
            Some(i) => i,
            None => return Err(TransferError::UserNotFound(to_key)),
        };
        let from_balance = self.users[from_idx].balance;
        if (from_balance as i128) < (amount as i128) {
            return Err(TransferError::InsufficientFunds(from_key));
        }
        let amount_i64 = amount as i64;
        let from_after = from_balance - amount_i64;
        if from_after as u64 > self.users[from_idx].credit_line {
            return Err(TransferError::CreditLimitExceeded(from_key));
        }
        let to_after = self.users[to_idx].balance as i128 + amount as i128;
        let to_magnitude = if to_after < 0 { -to_after } else { to_after };
        if to_magnitude > self.users[to_idx].credit_line as i128 || to_after > i64::MAX as i128 {
            return Err(TransferError::CreditLimitExceeded(to_key));
        }
        self.users[from_idx].balance = from_after;
        let to_balance = self.users[to_idx].balance;
        self.users[to_idx].balance = to_balance + amount_i64;
        Ok(())
    }
}

} // verus!
