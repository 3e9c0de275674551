//! The account store: which accounts are registered, and what each holds.

use crate::account_id::AccountId;
use crate::balances::{lemma_remove_absent, lemma_sum_insert, sum_of_balances};
use crate::error::LedgerError;
use vstd::prelude::*;

verus! {

/// The mathematical content of an account store: each registered account's
/// name with its balance.
pub type Balances = Map<Seq<char>, nat>;

/// The largest balance an account can hold.
pub const MAX_BALANCE: u128 = 0xffff_ffff_ffff_ffff_ffff_ffff_ffff_ffff;

/// The balance of `id`: zero for an account that is not registered.
pub open spec fn balance_in(balances: Balances, id: Seq<char>) -> nat {
    if balances.dom().contains(id) {
        balances[id]
    } else {
        0
    }
}

/// The balances after `id` has been registered: a registered account keeps
/// what it has, a new one starts at zero.
pub open spec fn registered(balances: Balances, id: Seq<char>) -> Balances {
    if balances.dom().contains(id) {
        balances
    } else {
        balances.insert(id, 0)
    }
}

/// The balances after `amount` has been added to `id`, or why that is refused.
pub open spec fn deposited(balances: Balances, id: Seq<char>, amount: nat) -> Result<
    Balances,
    LedgerError,
> {
    if !balances.dom().contains(id) {
        Err(LedgerError::AccountNotRegistered)
    } else if balances[id] + amount > MAX_BALANCE {
        Err(LedgerError::Overflow)
    } else {
        Ok(balances.insert(id, balances[id] + amount))
    }
}

/// The balances after `amount` has been taken from `id`, or why that is refused.
pub open spec fn withdrawn(balances: Balances, id: Seq<char>, amount: nat) -> Result<
    Balances,
    LedgerError,
> {
    if !balances.dom().contains(id) {
        Err(LedgerError::AccountNotRegistered)
    } else if amount > balances[id] {
        Err(LedgerError::InsufficientBalance)
    } else {
        Ok(balances.insert(id, (balances[id] - amount) as nat))
    }
}

/// The balances after `id` has been closed, or why that is refused. Closing an
/// account that is not registered changes nothing.
pub open spec fn unregistered(balances: Balances, id: Seq<char>) -> Result<Balances, LedgerError> {
    if !balances.dom().contains(id) {
        Ok(balances)
    } else if balances[id] != 0 {
        Err(LedgerError::AccountNotEmpty)
    } else {
        Ok(balances.remove(id))
    }
}

/// A registered account: its name and what it holds.
#[derive(Debug, PartialEq, Eq)]
pub struct Account {
    pub id: AccountId,
    pub balance: u128,
}

/// Registered accounts and their balances. Every registered account takes up
/// the same number of bytes of storage.
#[derive(Debug)]
pub struct AccountStore {
    entries: Vec<Account>,
    bytes_per_account: u64,
}

/// One of the accounts is named `id`.
pub open spec fn has_id(entries: Seq<Account>, id: Seq<char>) -> bool {
    exists|i: int| 0 <= i < entries.len() && (#[trigger] entries[i]).id@ == id
}

/// No two of the accounts have the same name.
pub open spec fn ids_distinct(entries: Seq<Account>) -> bool {
    forall|i: int, j: int|
        0 <= i < j < entries.len() ==> (#[trigger] entries[i]).id@ != (#[trigger] entries[j]).id@
}

/// The balances that a list of accounts stands for.
pub open spec fn balances_of(entries: Seq<Account>) -> Balances
    decreases entries.len(),
{
    if entries.len() == 0 {
        Map::empty()
    } else {
        balances_of(entries.drop_last()).insert(entries.last().id@, entries.last().balance as nat)
    }
}

/// What a duplicate-free list of accounts stands for: one entry for each
/// account of the list, under its name and with its balance, and no other.
pub proof fn lemma_balances_of(entries: Seq<Account>)
    requires
        ids_distinct(entries),
    ensures
        balances_of(entries).dom().finite(),
        balances_of(entries).dom().len() == entries.len(),
        forall|id: Seq<char>|
            #[trigger] balances_of(entries).dom().contains(id) <==> has_id(entries, id),
        forall|i: int|
            0 <= i < entries.len() ==> balances_of(entries)[(#[trigger] entries[i]).id@]
                == entries[i].balance,
    decreases entries.len(),
{
    if entries.len() > 0 {
        let front = entries.drop_last();
        let last = entries.last();
        lemma_balances_of(front);
        assert forall|id: Seq<char>| #[trigger]
            balances_of(entries).dom().contains(id) <==> has_id(entries, id) by {
            if has_id(front, id) {
                let i = choose|i: int| 0 <= i < front.len() && (#[trigger] front[i]).id@ == id;
                assert(entries[i].id@ == id);
            }
            if has_id(entries, id) && id != last.id@ {
                let i = choose|i: int| 0 <= i < entries.len() && (#[trigger] entries[i]).id@ == id;
                assert(front[i].id@ == id);
            }
        }
        assert(!has_id(front, last.id@)) by {
            if has_id(front, last.id@) {
                let i = choose|i: int|
                    0 <= i < front.len() && (#[trigger] front[i]).id@ == last.id@;
                assert(entries[i].id@ == entries[entries.len() - 1].id@);
            }
        }
        assert forall|i: int| 0 <= i < entries.len() - 1 implies balances_of(entries)[(
        #[trigger] entries[i]).id@] == entries[i].balance by {
            assert(front[i].id@ == entries[i].id@);
        }
    }
}

/// Appending an entry under a new name inserts it into the map.
proof fn lemma_balances_of_push(entries: Seq<Account>, account: Account)
    requires
        ids_distinct(entries),
        !has_id(entries, account.id@),
    ensures
        ids_distinct(entries.push(account)),
        balances_of(entries.push(account)) == balances_of(entries).insert(
            account.id@,
            account.balance as nat,
        ),
{
    let longer = entries.push(account);
    assert(longer.drop_last() =~= entries);
    assert forall|i: int, j: int| 0 <= i < j < longer.len() implies (#[trigger] longer[i]).id@ != (
    #[trigger] longer[j]).id@ by {
        assert(longer[i] == entries[i]);
    }
}

/// Changing the balance of entry `at` changes that account's value in the map.
proof fn lemma_balances_of_update(entries: Seq<Account>, at: int, account: Account)
    requires
        ids_distinct(entries),
        0 <= at < entries.len(),
        account.id@ == entries[at].id@,
    ensures
        ids_distinct(entries.update(at, account)),
        balances_of(entries.update(at, account)) == balances_of(entries).insert(
            account.id@,
            account.balance as nat,
        ),
{
    let changed = entries.update(at, account);
    let expected = balances_of(entries).insert(account.id@, account.balance as nat);
    assert(ids_distinct(changed)) by {
        assert forall|i: int| 0 <= i < changed.len() implies (#[trigger] changed[i]).id@
            == entries[i].id@ by {}
    }
    lemma_balances_of(entries);
    lemma_balances_of(changed);
    assert forall|id: Seq<char>|
        balances_of(changed).dom().contains(id) <==> expected.dom().contains(id) by {
        if has_id(changed, id) {
            let i = choose|i: int| 0 <= i < changed.len() && (#[trigger] changed[i]).id@ == id;
            assert(entries[i].id@ == id);
        }
        if has_id(entries, id) {
            let i = choose|i: int| 0 <= i < entries.len() && (#[trigger] entries[i]).id@ == id;
            assert(changed[i].id@ == id);
        }
    }
    assert forall|id: Seq<char>| balances_of(changed).dom().contains(id) implies balances_of(
        changed,
    )[id] == expected[id] by {
        let i = choose|i: int| 0 <= i < changed.len() && (#[trigger] changed[i]).id@ == id;
        assert(entries[i].id@ == id);
    }
    assert(balances_of(changed) =~= expected);
}

/// Dropping entry `at` removes that account from the map.
proof fn lemma_balances_of_remove(entries: Seq<Account>, at: int)
    requires
        ids_distinct(entries),
        0 <= at < entries.len(),
    ensures
        ids_distinct(entries.remove(at)),
        balances_of(entries.remove(at)) == balances_of(entries).remove(entries[at].id@),
{
    let shorter = entries.remove(at);
    let expected = balances_of(entries).remove(entries[at].id@);
    // Entry `i` of the shorter list is entry `origin(i)` of the longer one.
    let origin = |i: int| if i < at { i } else { i + 1 };
    assert forall|i: int| 0 <= i < shorter.len() implies #[trigger] shorter[i] == entries[origin(
        i,
    )] by {}
    lemma_balances_of(entries);
    lemma_balances_of(shorter);
    assert forall|id: Seq<char>|
        balances_of(shorter).dom().contains(id) <==> expected.dom().contains(id) by {
        if has_id(shorter, id) {
            let i = choose|i: int| 0 <= i < shorter.len() && (#[trigger] shorter[i]).id@ == id;
            assert(entries[origin(i)].id@ == id);
        }
        if has_id(entries, id) && id != entries[at].id@ {
            let i = choose|i: int| 0 <= i < entries.len() && (#[trigger] entries[i]).id@ == id;
            let to = if i < at { i } else { i - 1 };
            assert(shorter[to].id@ == id);
        }
    }
    assert forall|id: Seq<char>| balances_of(shorter).dom().contains(id) implies balances_of(
        shorter,
    )[id] == expected[id] by {
        let i = choose|i: int| 0 <= i < shorter.len() && (#[trigger] shorter[i]).id@ == id;
        assert(entries[origin(i)].id@ == id);
    }
    assert(balances_of(shorter) =~= expected);
}

/// Two lists that agree name by name and balance by balance stand for the
/// same balances.
proof fn lemma_balances_of_alike(left: Seq<Account>, right: Seq<Account>)
    requires
        left.len() == right.len(),
        forall|i: int|
            0 <= i < left.len() ==> (#[trigger] left[i]).id@ == right[i].id@ && left[i].balance
                == right[i].balance,
    ensures
        balances_of(left) == balances_of(right),
        ids_distinct(left) == ids_distinct(right),
    decreases left.len(),
{
    if left.len() > 0 {
        assert(left[left.len() - 1].id@ == right[left.len() - 1].id@);
        assert forall|i: int| 0 <= i < left.len() - 1 implies (#[trigger] left.drop_last()[i]).id@
            == right.drop_last()[i].id@ && left.drop_last()[i].balance
            == right.drop_last()[i].balance by {
            assert(left[i].id@ == right[i].id@);
        }
        lemma_balances_of_alike(left.drop_last(), right.drop_last());
    }
    if ids_distinct(left) {
        assert forall|i: int, j: int| 0 <= i < j < right.len() implies (#[trigger] right[i]).id@
            != (#[trigger] right[j]).id@ by {
            assert(left[i].id@ != left[j].id@);
        }
    }
    if ids_distinct(right) {
        assert forall|i: int, j: int| 0 <= i < j < left.len() implies (#[trigger] left[i]).id@ != (
        #[trigger] left[j]).id@ by {
            assert(right[i].id@ != right[j].id@);
        }
    }
}

/// One more account of a duplicate-free list adds its balance to the sum.
proof fn lemma_sum_of_prefix(entries: Seq<Account>, upto: int)
    requires
        ids_distinct(entries),
        0 <= upto < entries.len(),
    ensures
        sum_of_balances(balances_of(entries.take(upto + 1))) == sum_of_balances(
            balances_of(entries.take(upto)),
        ) + entries[upto].balance,
{
    let shorter = entries.take(upto);
    assert(entries.take(upto + 1) =~= shorter.push(entries[upto]));
    assert(ids_distinct(shorter)) by {
        assert forall|i: int| 0 <= i < shorter.len() implies #[trigger] shorter[i]
            == entries[i] by {}
    }
    assert(!has_id(shorter, entries[upto].id@)) by {
        if has_id(shorter, entries[upto].id@) {
            let i = choose|i: int|
                0 <= i < shorter.len() && (#[trigger] shorter[i]).id@ == entries[upto].id@;
            assert(entries[i].id@ == entries[upto].id@);
        }
    }
    lemma_balances_of(shorter);
    lemma_balances_of_push(shorter, entries[upto]);
    lemma_sum_insert(balances_of(shorter), entries[upto].id@, entries[upto].balance as nat);
    lemma_remove_absent(balances_of(shorter), entries[upto].id@);
}

/// The first accounts of a duplicate-free list hold no more than all of them.
proof fn lemma_sum_of_prefix_bounded(entries: Seq<Account>, upto: int)
    requires
        ids_distinct(entries),
        0 <= upto <= entries.len(),
    ensures
        sum_of_balances(balances_of(entries.take(upto))) <= sum_of_balances(balances_of(entries)),
    decreases entries.len() - upto,
{
    if upto < entries.len() {
        lemma_sum_of_prefix(entries, upto);
        lemma_sum_of_prefix_bounded(entries, upto + 1);
    } else {
        assert(entries.take(upto) =~= entries);
    }
}

impl View for AccountStore {
    type V = Balances;

    closed spec fn view(&self) -> Balances {
        balances_of(self.entries@)
    }
}

impl AccountStore {
    /// No account is entered twice.
    pub closed spec fn entries_unique(&self) -> bool {
        ids_distinct(self.entries@)
    }

    /// The store is well formed: the accounts are no more than can be counted
    /// in a machine word, each is entered once, and each holds at most
    /// `MAX_BALANCE`.
    pub open spec fn wf(&self) -> bool {
        &&& self.entries_unique()
        &&& self@.dom().finite()
        &&& self@.dom().len() <= usize::MAX
        &&& forall|id: Seq<char>| self@.dom().contains(id) ==> #[trigger] self@[id] <= MAX_BALANCE
    }

    /// The bytes of storage that one registered account takes up.
    pub closed spec fn bytes_per_account(&self) -> nat {
        self.bytes_per_account as nat
    }

    /// The bytes of storage that the store takes up.
    pub open spec fn storage_usage_spec(&self) -> nat {
        self@.dom().len() * self.bytes_per_account()
    }

    proof fn lemma_view(&self)
        requires
            self.entries_unique(),
        ensures
            self.wf(),
            self@.dom().len() == self.entries@.len(),
            forall|id: Seq<char>|
                #[trigger] self@.dom().contains(id) <==> has_id(self.entries@, id),
            forall|i: int|
                0 <= i < self.entries@.len() ==> self@[(#[trigger] self.entries@[i]).id@]
                    == self.entries@[i].balance,
    {
        lemma_balances_of(self.entries@);
        assert(self.entries@.len() == self.entries.len() <= usize::MAX);
        assert forall|id: Seq<char>| self@.dom().contains(id) implies #[trigger] self@[id]
            <= MAX_BALANCE by {
            let i = choose|i: int|
                0 <= i < self.entries@.len() && (#[trigger] self.entries@[i]).id@ == id;
            assert(self@[id] == self.entries@[i].balance);
        }
    }

    /// An empty store in which each account will take up `bytes_per_account`
    /// bytes.
    pub fn new(bytes_per_account: u64) -> (store: AccountStore)
        ensures
            store.wf(),
            store@ == Map::<Seq<char>, nat>::empty(),
            store.bytes_per_account() == bytes_per_account,
    {
        let store = AccountStore { entries: Vec::new(), bytes_per_account };
        proof {
            store.lemma_view();
        }
        store
    }

    /// A store of the given accounts, unless one of them is named twice.
    pub fn from_accounts(accounts: Vec<Account>, bytes_per_account: u64) -> (store: Option<
        AccountStore,
    >)
        ensures
            match store {
                Some(store) => ids_distinct(accounts@) && store.wf() && store@ == balances_of(
                    accounts@,
                ) && store.bytes_per_account() == bytes_per_account,
                None => !ids_distinct(accounts@),
            },
    {
        let mut first: usize = 0;
        while first < accounts.len()
            invariant
                first <= accounts@.len(),
                forall|i: int, j: int|
                    0 <= i < j < accounts@.len() && i < first ==> (#[trigger] accounts@[i]).id@ != (
                    #[trigger] accounts@[j]).id@,
            decreases accounts@.len() - first,
        {
            let mut second: usize = first + 1;
            while second < accounts.len()
                invariant
                    first < second <= accounts@.len(),
                    forall|j: int|
                        first < j < second ==> accounts@[first as int].id@ != (
                        #[trigger] accounts@[j]).id@,
                decreases accounts@.len() - second,
            {
                if accounts[first].id.same_as(&accounts[second].id) {
                    return None;
                }
                second += 1;
            }
            first += 1;
        }
        let store = AccountStore { entries: accounts, bytes_per_account };
        proof {
            store.lemma_view();
        }
        Some(store)
    }

    /// The registered accounts with their balances.
    pub fn accounts(&self) -> (list: Vec<Account>)
        requires
            self.wf(),
        ensures
            ids_distinct(list@),
            balances_of(list@) == self@,
    {
        let mut list: Vec<Account> = Vec::new();
        let mut at: usize = 0;
        while at < self.entries.len()
            invariant
                at <= self.entries@.len(),
                list@.len() == at,
                forall|i: int|
                    0 <= i < at ==> (#[trigger] list@[i]).id@ == self.entries@[i].id@
                        && list@[i].balance == self.entries@[i].balance,
            decreases self.entries@.len() - at,
        {
            let entry = &self.entries[at];
            list.push(Account { id: entry.id.clone(), balance: entry.balance });
            at += 1;
        }
        proof {
            lemma_balances_of_alike(list@, self.entries@);
        }
        list
    }

    /// The sum of all balances, if it fits in 128 bits.
    pub fn total(&self) -> (sum: Option<u128>)
        requires
            self.wf(),
        ensures
            match sum {
                Some(total) => total == sum_of_balances(self@),
                None => sum_of_balances(self@) > MAX_BALANCE,
            },
    {
        let mut sum: u128 = 0;
        let mut at: usize = 0;
        assert(self.entries@.take(0) =~= Seq::<Account>::empty());
        while at < self.entries.len()
            invariant
                at <= self.entries@.len(),
                ids_distinct(self.entries@),
                sum == sum_of_balances(balances_of(self.entries@.take(at as int))),
            decreases self.entries@.len() - at,
        {
            proof {
                lemma_sum_of_prefix(self.entries@, at as int);
            }
            match sum.checked_add(self.entries[at].balance) {
                Some(more) => {
                    sum = more;
                },
                None => {
                    proof {
                        lemma_sum_of_prefix_bounded(self.entries@, at + 1);
                    }
                    return None;
                },
            }
            at += 1;
        }
        assert(self.entries@.take(at as int) =~= self.entries@);
        Some(sum)
    }

    /// Where `id` is entered, if it is.
    fn position(&self, id: &AccountId) -> (found: Option<usize>)
        requires
            self.wf(),
        ensures
            match found {
                Some(at) => at < self.entries@.len() && self.entries@[at as int].id@ == id@
                    && self@.dom().contains(id@) && self@[id@] == self.entries@[at as int].balance,
                None => !self@.dom().contains(id@),
            },
    {
        proof {
            self.lemma_view();
        }
        let mut at: usize = 0;
        while at < self.entries.len()
            invariant
                at <= self.entries@.len(),
                forall|i: int| 0 <= i < at ==> (#[trigger] self.entries@[i]).id@ != id@,
                forall|id: Seq<char>| #[trigger]
                    self@.dom().contains(id) <==> has_id(self.entries@, id),
                forall|i: int|
                    0 <= i < self.entries@.len() ==> self@[(#[trigger] self.entries@[i]).id@]
                        == self.entries@[i].balance,
            decreases self.entries@.len() - at,
        {
            if self.entries[at].id.same_as(id) {
                return Some(at);
            }
            at += 1;
        }
        None
    }

    /// How many accounts are registered.
    pub fn len(&self) -> (count: usize)
        requires
            self.wf(),
        ensures
            count == self@.dom().len(),
    {
        proof {
            self.lemma_view();
        }
        self.entries.len()
    }

    /// The bytes of storage that one registered account takes up.
    pub fn account_storage_usage(&self) -> (bytes: u64)
        ensures
            bytes == self.bytes_per_account(),
    {
        self.bytes_per_account
    }

    /// The bytes of storage that the store takes up: the same number for each
    /// registered account.
    pub fn storage_usage(&self) -> (bytes: u128)
        requires
            self.wf(),
        ensures
            bytes == self.storage_usage_spec(),
    {
        proof {
            self.lemma_view();
        }
        let count: u128 = self.entries.len() as u128;
        let each: u128 = self.bytes_per_account as u128;
        assert(count * each <= MAX_BALANCE) by (nonlinear_arith)
            requires
                0 <= count <= 0xffff_ffff_ffff_ffff,
                0 <= each <= 0xffff_ffff_ffff_ffff,
        ;
        count * each
    }

    /// Whether `id` is registered.
    pub fn is_registered(&self, id: &AccountId) -> (known: bool)
        requires
            self.wf(),
        ensures
            known == self@.dom().contains(id@),
    {
        self.position(id).is_some()
    }

    /// The balance of `id`; zero for an account that is not registered.
    pub fn balance_of(&self, id: &AccountId) -> (balance: u128)
        requires
            self.wf(),
        ensures
            balance == balance_in(self@, id@),
    {
        match self.position(id) {
            Some(at) => self.entries[at].balance,
            None => 0,
        }
    }

    /// Registers `id` with a balance of zero. An account that is registered
    /// already keeps its balance.
    pub fn register(&mut self, id: &AccountId)
        requires
            old(self).wf(),
        ensures
            final(self).wf(),
            final(self)@ == registered(old(self)@, id@),
            final(self).bytes_per_account() == old(self).bytes_per_account(),
    {
        if self.position(id).is_none() {
            let account = Account { id: id.clone(), balance: 0 };
            proof {
                self.lemma_view();
                lemma_balances_of_push(self.entries@, account);
            }
            self.entries.push(account);
            proof {
                self.lemma_view();
            }
        }
    }

    /// Adds `amount` to the balance of `id`.
    pub fn deposit(&mut self, id: &AccountId, amount: u128) -> (done: Result<(), LedgerError>)
        requires
            old(self).wf(),
        ensures
            final(self).wf(),
            done is Err ==> *final(self) == *old(self),
            final(self).bytes_per_account() == old(self).bytes_per_account(),
            match deposited(old(self)@, id@, amount as nat) {
                Ok(balances) => done == Ok::<(), LedgerError>(()) && final(self)@ == balances,
                Err(error) => done == Err::<(), LedgerError>(error) && final(self)@ == old(self)@,
            },
    {
        match self.position(id) {
            None => Err(LedgerError::AccountNotRegistered),
            Some(at) => match self.entries[at].balance.checked_add(amount) {
                None => Err(LedgerError::Overflow),
                Some(balance) => {
                    self.set_balance(at, balance);
                    Ok(())
                },
            },
        }
    }

    /// Takes `amount` from the balance of `id`.
    pub fn withdraw(&mut self, id: &AccountId, amount: u128) -> (done: Result<(), LedgerError>)
        requires
            old(self).wf(),
        ensures
            final(self).wf(),
            done is Err ==> *final(self) == *old(self),
            final(self).bytes_per_account() == old(self).bytes_per_account(),
            match withdrawn(old(self)@, id@, amount as nat) {
                Ok(balances) => done == Ok::<(), LedgerError>(()) && final(self)@ == balances,
                Err(error) => done == Err::<(), LedgerError>(error) && final(self)@ == old(self)@,
            },
    {
        match self.position(id) {
            None => Err(LedgerError::AccountNotRegistered),
            Some(at) => match self.entries[at].balance.checked_sub(amount) {
                None => Err(LedgerError::InsufficientBalance),
                Some(balance) => {
                    self.set_balance(at, balance);
                    Ok(())
                },
            },
        }
    }

    /// Closes `id`, which must hold nothing. Says whether an entry was removed:
    /// closing an account that is not registered removes none.
    pub fn unregister(&mut self, id: &AccountId) -> (done: Result<bool, LedgerError>)
        requires
            old(self).wf(),
        ensures
            final(self).wf(),
            done is Err ==> *final(self) == *old(self),
            final(self).bytes_per_account() == old(self).bytes_per_account(),
            match unregistered(old(self)@, id@) {
                Ok(balances) => done == Ok::<bool, LedgerError>(old(self)@.dom().contains(id@))
                    && final(self)@ == balances,
                Err(error) => done == Err::<bool, LedgerError>(error) && final(self)@ == old(
                    self,
                )@,
            },
    {
        match self.position(id) {
            None => Ok(false),
            Some(at) => {
                if self.entries[at].balance != 0 {
                    Err(LedgerError::AccountNotEmpty)
                } else {
                    proof {
                        lemma_balances_of_remove(self.entries@, at as int);
                    }
                    self.entries.remove(at);
                    proof {
                        self.lemma_view();
                    }
                    Ok(true)
                }
            },
        }
    }

    /// Writes `balance` into entry `at`.
    fn set_balance(&mut self, at: usize, balance: u128)
        requires
            old(self).wf(),
            at < old(self).entries@.len(),
        ensures
            final(self).wf(),
            final(self).bytes_per_account() == old(self).bytes_per_account(),
            final(self)@ == old(self)@.insert(old(self).entries@[at as int].id@, balance as nat),
    {
        let ghost before = self.entries@;
        self.entries[at].balance = balance;
        proof {
            lemma_balances_of_update(before, at as int, self.entries@[at as int]);
            self.lemma_view();
        }
    }
}

} // verus!
