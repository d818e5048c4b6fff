//! The per-organization ledger: validated indices of the entities that the
//! journal's actions create, and the account hierarchy over them.
use vstd::prelude::*;
use vstd::laws_cmp::obeys_cmp;
use vstd::std_specs::btree::increasing_seq;
use vstd::std_specs::iter::IteratorSpec;
use vstd::std_specs::cmp::OrdSpec;
use std::collections::BTreeMap;
use crate::journal::{
    clone_entries, Account, AccountCategory, Action, AccountId, AccountNumber, AccountType, Contact, ContactId, Currency,
    CurrencyId, LedgerEntry, OrganizationId, Transaction, TransactionId,
};

verus! {

/// Why an action was refused.
#[derive(Debug, Clone, Copy, PartialEq, Eq, Structural)]
pub enum Error {
    MissingAccount(AccountId),
    AccountExists(AccountId),
    MissingCurrency(CurrencyId),
    CurrencyExists(CurrencyId),
    MissingContact(ContactId),
    ContactExists(ContactId),
    MissingTransaction(TransactionId),
    TransactionExists(TransactionId),
    LedgerEntriesExists(TransactionId),
    MissingOrganization(OrganizationId),
    OrganizationExists(OrganizationId),
    /// Following parents from this account comes back to an account already seen.
    AccountCycle(AccountId),
}

/// What a ledger holds, as maps and sequences.
pub struct LedgerModel {
    pub accounts: Map<AccountId, Account>,
    /// The ids of `accounts`, ascending.
    pub account_order: Seq<AccountId>,
    pub currencies: Map<CurrencyId, Currency>,
    pub contacts: Map<ContactId, Contact>,
    pub transactions: Map<TransactionId, Transaction>,
    /// The legs of each transaction, as they were given.
    pub transaction_entries: Map<TransactionId, Seq<LedgerEntry>>,
    /// The legs that name each account, in the order they arrived.
    pub account_entries: Map<AccountId, Seq<LedgerEntry>>,
}

/// The values of `s` are strictly ascending.
pub open spec fn ascending(s: Seq<AccountId>) -> bool {
    forall|i: int, j: int| 0 <= i < j < s.len() ==> s[i] < s[j]
}

/// How many values of `s` lie below `x`.
pub open spec fn count_below(s: Seq<AccountId>, x: AccountId) -> nat
    decreases s.len(),
{
    if s.len() == 0 {
        0
    } else {
        count_below(s.drop_last(), x) + if s.last() < x { 1nat } else { 0nat }
    }
}

/// `s` with `x` put in its place in ascending order.
pub open spec fn insert_ascending(s: Seq<AccountId>, x: AccountId) -> Seq<AccountId> {
    s.insert(count_below(s, x) as int, x)
}

/// The reference that an account's type makes to a contact or a currency,
/// where the ledger does not hold it.
pub open spec fn account_type_error(m: LedgerModel, t: AccountType) -> Option<Error> {
    match t {
        AccountType::ContactAccount { contact_id } => if m.contacts.contains_key(contact_id) {
            None
        } else {
            Some(Error::MissingContact(contact_id))
        },
        AccountType::BankAccount { currency_id, .. } => if m.currencies.contains_key(currency_id) {
            None
        } else {
            Some(Error::MissingCurrency(currency_id))
        },
        _ => None,
    }
}

/// The legs of `entries` appended, one by one, to the list of the account each names.
pub open spec fn append_account_entries(
    m: Map<AccountId, Seq<LedgerEntry>>,
    entries: Seq<LedgerEntry>,
) -> Map<AccountId, Seq<LedgerEntry>>
    decreases entries.len(),
{
    if entries.len() == 0 {
        m
    } else {
        let before = append_account_entries(m, entries.drop_last());
        let e = entries.last();
        let list = if before.contains_key(e.account_id) {
            before[e.account_id]
        } else {
            Seq::empty()
        };
        before.insert(e.account_id, list.push(e))
    }
}

/// Every child listed is an account that the ledger holds.
proof fn lemma_children_held(m: LedgerModel, order: Seq<AccountId>, id: AccountId, i: int)
    requires
        m.wf(),
        forall|k: AccountId| #[trigger] order.contains(k) ==> m.accounts.contains_key(k),
        0 <= i < children_in(m.accounts, order, id).len(),
    ensures
        m.accounts.contains_key(children_in(m.accounts, order, id)[i]),
        m.accounts[children_in(m.accounts, order, id)[i]].id == children_in(m.accounts, order, id)[i],
    decreases order.len(),
{
    let before = children_in(m.accounts, order.drop_last(), id);
    assert forall|k: AccountId| order.drop_last().contains(k) implies m.accounts.contains_key(k) by {
        let a = choose|a: int| 0 <= a < order.drop_last().len() && order.drop_last()[a] == k;
        assert(order[a] == k);
        assert(order.contains(k));
    }
    if i < before.len() {
        lemma_children_held(m, order.drop_last(), id, i);
    } else {
        assert(order.contains(order.last()));
    }
}

impl LedgerModel {
    /// The ledger that holds nothing.
    pub open spec fn empty() -> LedgerModel {
        LedgerModel {
            accounts: Map::empty(),
            account_order: Seq::empty(),
            currencies: Map::empty(),
            contacts: Map::empty(),
            transactions: Map::empty(),
            transaction_entries: Map::empty(),
            account_entries: Map::empty(),
        }
    }

    /// Each index is keyed by the ids of its values, and `account_order`
    /// lists the account ids in ascending order.
    pub open spec fn wf(self) -> bool {
        &&& ascending(self.account_order)
        &&& forall|k: AccountId| #[trigger]
            self.accounts.contains_key(k) <==> self.account_order.contains(k)
        &&& forall|k: AccountId| #[trigger]
            self.accounts.contains_key(k) ==> self.accounts[k].id == k
        &&& forall|k: CurrencyId| #[trigger]
            self.currencies.contains_key(k) ==> self.currencies[k].id == k
        &&& forall|k: ContactId| #[trigger]
            self.contacts.contains_key(k) ==> self.contacts[k].id == k
        &&& forall|k: TransactionId| #[trigger]
            self.transactions.contains_key(k) ==> self.transactions[k].id == k
    }

    /// The outcome of adding `a`: the new ledger, or the error that refuses it.
    pub open spec fn add_account(self, a: Account) -> Result<LedgerModel, Error> {
        if self.accounts.contains_key(a.id) {
            Err(Error::AccountExists(a.id))
        } else if let Some(e) = account_type_error(self, a.account_type) {
            Err(e)
        } else {
            Ok(
                LedgerModel {
                    accounts: self.accounts.insert(a.id, a),
                    account_order: insert_ascending(self.account_order, a.id),
                    ..self
                },
            )
        }
    }

    pub open spec fn add_currency(self, c: Currency) -> Result<LedgerModel, Error> {
        if self.currencies.contains_key(c.id) {
            Err(Error::CurrencyExists(c.id))
        } else {
            Ok(LedgerModel { currencies: self.currencies.insert(c.id, c), ..self })
        }
    }

    pub open spec fn add_contact(self, c: Contact) -> Result<LedgerModel, Error> {
        if self.contacts.contains_key(c.id) {
            Err(Error::ContactExists(c.id))
        } else {
            Ok(LedgerModel { contacts: self.contacts.insert(c.id, c), ..self })
        }
    }

    pub open spec fn add_transaction(self, t: Transaction) -> Result<LedgerModel, Error> {
        if self.transactions.contains_key(t.id) {
            Err(Error::TransactionExists(t.id))
        } else {
            Ok(LedgerModel { transactions: self.transactions.insert(t.id, t), ..self })
        }
    }

    pub open spec fn add_ledger_entries(self, id: TransactionId, entries: Seq<LedgerEntry>) -> Result<
        LedgerModel,
        Error,
    > {
        if self.transaction_entries.contains_key(id) {
            Err(Error::LedgerEntriesExists(id))
        } else {
            Ok(
                LedgerModel {
                    transaction_entries: self.transaction_entries.insert(id, entries),
                    ..self
                },
            )
        }
    }

    pub open spec fn add_account_entries(self, entries: Seq<LedgerEntry>) -> LedgerModel {
        LedgerModel {
            account_entries: append_account_entries(self.account_entries, entries),
            ..self
        }
    }
}

/// The account of the first leg that names an account the ledger does not hold.
pub open spec fn first_missing_account(m: LedgerModel, entries: Seq<LedgerEntry>) -> Option<
    AccountId,
>
    decreases entries.len(),
{
    if entries.len() == 0 {
        None
    } else {
        match first_missing_account(m, entries.drop_last()) {
            Some(id) => Some(id),
            None => if m.accounts.contains_key(entries.last().account_id) {
                None
            } else {
                Some(entries.last().account_id)
            },
        }
    }
}

/// The accounts among `order` whose parent is `id`, in the order of `order`.
pub open spec fn children_in(
    accounts: Map<AccountId, Account>,
    order: Seq<AccountId>,
    id: AccountId,
) -> Seq<AccountId>
    decreases order.len(),
{
    if order.len() == 0 {
        Seq::empty()
    } else {
        let before = children_in(accounts, order.drop_last(), id);
        let c = order.last();
        if accounts[c].parent_id == Some(id) {
            before.push(c)
        } else {
            before
        }
    }
}

/// The account is a root of the forest and belongs to `category`.
pub open spec fn is_root_of(m: LedgerModel, id: AccountId, category: AccountCategory) -> bool {
    &&& m.accounts[id].parent_id is None
    &&& m.accounts[id].account_category == category
}

impl LedgerModel {
    /// The ids of the accounts whose parent is `id`, ascending.
    pub open spec fn child_ids(self, id: AccountId) -> Seq<AccountId> {
        children_in(self.accounts, self.account_order, id)
    }

    /// The numbers from the root down to `a`, following parents at most
    /// `fuel` times.
    pub open spec fn full_number_within(self, a: Account, fuel: nat) -> Result<
        Seq<AccountNumber>,
        Error,
    >
        decreases fuel,
    {
        match a.parent_id {
            None => Ok(seq![a.number]),
            Some(p) => if !self.accounts.contains_key(p) {
                Err(Error::MissingAccount(p))
            } else if fuel == 0 {
                Err(Error::AccountCycle(a.id))
            } else {
                match self.full_number_within(self.accounts[p], (fuel - 1) as nat) {
                    Ok(s) => Ok(s.push(a.number)),
                    Err(e) => Err(e),
                }
            },
        }
    }

    /// The numbers from the root down to `a`. Parents are followed as many
    /// times as there are accounts, which reaches the root of any chain
    /// without a cycle.
    pub open spec fn full_number(self, a: Account) -> Result<Seq<AccountNumber>, Error> {
        self.full_number_within(a, self.accounts.len())
    }
}

impl LedgerModel {
    /// The ledger after an action for this organization, and what the
    /// action returns. A transaction whose legs name an account the ledger
    /// does not hold is refused; one whose legs were recorded already is
    /// kept without them.
    /// An organization's own action leaves the ledger as it is.
    pub open spec fn apply_action(self, action: Action) -> (LedgerModel, Result<(), Error>) {
        match action {
            Action::AddCurrency { currency } => match self.add_currency(currency) {
                Ok(m) => (m, Ok(())),
                Err(e) => (self, Err(e)),
            },
            Action::AddContact { contact } => match self.add_contact(contact) {
                Ok(m) => (m, Ok(())),
                Err(e) => (self, Err(e)),
            },
            Action::AddAccount { account } => match self.add_account(account) {
                Ok(m) => (m, Ok(())),
                Err(e) => (self, Err(e)),
            },
            Action::AddTransaction { transaction, ledger_entries } => match self.add_transaction(
                transaction,
            ) {
                Err(e) => (self, Err(e)),
                Ok(_) if first_missing_account(self, ledger_entries@) is Some => (
                    self,
                    Err(Error::MissingAccount(first_missing_account(self, ledger_entries@)->Some_0)),
                ),
                Ok(m1) => match m1.add_ledger_entries(transaction.id, ledger_entries@) {
                    Err(e) => (m1, Err(e)),
                    Ok(m2) => (m2.add_account_entries(ledger_entries@), Ok(())),
                },
            },
            Action::AddOrganization { .. } => (self, Ok(())),
        }
    }
}

/// An account whose type names a contact or a currency that the ledger does
/// not hold is refused with the matching error, and the ledger stays as it is.
pub proof fn lemma_missing_reference(m: LedgerModel, account: Account)
    requires
        !m.accounts.contains_key(account.id),
    ensures
        match account.account_type {
            AccountType::ContactAccount { contact_id } => !m.contacts.contains_key(contact_id)
                ==> m.apply_action(Action::AddAccount { account }) == (
                m,
                Err::<(), Error>(Error::MissingContact(contact_id)),
            ),
            AccountType::BankAccount { currency_id, .. } => !m.currencies.contains_key(currency_id)
                ==> m.apply_action(Action::AddAccount { account }) == (
                m,
                Err::<(), Error>(Error::MissingCurrency(currency_id)),
            ),
            _ => true,
        },
{
}

/// A transaction whose legs name an account that the ledger does not hold is
/// refused with `MissingAccount` for the first such leg, and the ledger stays
/// as it is.
pub proof fn lemma_transaction_missing_account(
    m: LedgerModel,
    transaction: Transaction,
    ledger_entries: Vec<LedgerEntry>,
)
    requires
        !m.transactions.contains_key(transaction.id),
        first_missing_account(m, ledger_entries@) is Some,
    ensures
        m.apply_action(Action::AddTransaction { transaction, ledger_entries }) == (
            m,
            Err::<(), Error>(Error::MissingAccount(first_missing_account(m, ledger_entries@)->Some_0)),
        ),
{
}

/// A second account with the id of one already added is refused with
/// `AccountExists`, and the first stays as it was.
pub proof fn lemma_duplicate_account(m: LedgerModel, first: Account, second: Account)
    requires
        m.add_account(first) is Ok,
        second.id == first.id,
    ensures
        ({
            let m1 = m.add_account(first)->Ok_0;
            &&& m1.apply_action(Action::AddAccount { account: second }) == (
                m1,
                Err::<(), Error>(Error::AccountExists(first.id)),
            )
            &&& m1.accounts[first.id] == first
        }),
{
}

/// A second currency with the id of one already added is refused with
/// `CurrencyExists`, and the first stays as it was.
pub proof fn lemma_duplicate_currency(m: LedgerModel, first: Currency, second: Currency)
    requires
        m.add_currency(first) is Ok,
        second.id == first.id,
    ensures
        ({
            let m1 = m.add_currency(first)->Ok_0;
            &&& m1.apply_action(Action::AddCurrency { currency: second }) == (
                m1,
                Err::<(), Error>(Error::CurrencyExists(first.id)),
            )
            &&& m1.currencies[first.id] == first
        }),
{
}

/// A second contact with the id of one already added is refused with
/// `ContactExists`, and the first stays as it was.
pub proof fn lemma_duplicate_contact(m: LedgerModel, first: Contact, second: Contact)
    requires
        m.add_contact(first) is Ok,
        second.id == first.id,
    ensures
        ({
            let m1 = m.add_contact(first)->Ok_0;
            &&& m1.apply_action(Action::AddContact { contact: second }) == (
                m1,
                Err::<(), Error>(Error::ContactExists(first.id)),
            )
            &&& m1.contacts[first.id] == first
        }),
{
}

/// A second transaction with the id of one already added is refused with
/// `TransactionExists`, and the first stays as it was, legs included.
pub proof fn lemma_duplicate_transaction(
    m: LedgerModel,
    first: Transaction,
    first_entries: Vec<LedgerEntry>,
    second: Transaction,
    second_entries: Vec<LedgerEntry>,
)
    requires
        m.apply_action(Action::AddTransaction { transaction: first, ledger_entries: first_entries }).1 is Ok,
        second.id == first.id,
    ensures
        ({
            let m1 = m.apply_action(
                Action::AddTransaction { transaction: first, ledger_entries: first_entries },
            ).0;
            &&& m1.apply_action(
                Action::AddTransaction { transaction: second, ledger_entries: second_entries },
            ) == (m1, Err::<(), Error>(Error::TransactionExists(first.id)))
            &&& m1.transactions[first.id] == first
            &&& m1.transaction_entries[first.id] == first_entries@
        }),
{
}

/// The values of an ascending sequence without `x` that lie below `x` are
/// exactly those before position `count_below(s, x)`.
proof fn lemma_count_below_split(s: Seq<AccountId>, x: AccountId)
    requires
        ascending(s),
        !s.contains(x),
    ensures
        count_below(s, x) <= s.len(),
        forall|j: int| 0 <= j < count_below(s, x) ==> s[j] < x,
        forall|j: int| count_below(s, x) <= j < s.len() ==> s[j] > x,
    decreases s.len(),
{
    if s.len() > 0 {
        let t = s.drop_last();
        assert(!t.contains(x)) by {
            if t.contains(x) {
                let a = choose|a: int| 0 <= a < t.len() && t[a] == x;
                assert(s[a] == x);
            }
        }
        assert(ascending(t)) by {
            assert forall|i: int, j: int| 0 <= i < j < t.len() implies t[i] < t[j] by {
                assert(t[i] == s[i] && t[j] == s[j]);
            }
        }
        lemma_count_below_split(t, x);
        let c = count_below(t, x) as int;
        let n = s.len() - 1;
        assert(s.last() == s[n]);
        assert(s[n] != x) by {
            assert(s.contains(s[n]));
        }
        assert forall|j: int| 0 <= j < n implies t[j] == s[j] by {}
        if s[n] < x {
            if c < n {
                assert(s[c] < s[n]);
            }
            assert(c == n);
        }
    }
}

/// Carrying out an action keeps a ledger well formed.
pub proof fn lemma_apply_action_wf(m: LedgerModel, action: Action)
    requires
        m.wf(),
    ensures
        m.apply_action(action).0.wf(),
{
    match action {
        Action::AddAccount { account } => {
            if m.add_account(account) is Ok {
                lemma_insert_ascending(m.account_order, account.id);
            }
        },
        _ => {},
    }
}

/// Putting a new value into an ascending sequence keeps it ascending and
/// adds exactly that value.
pub proof fn lemma_insert_ascending(s: Seq<AccountId>, x: AccountId)
    requires
        ascending(s),
        !s.contains(x),
    ensures
        ascending(insert_ascending(s, x)),
        forall|k: AccountId| #[trigger]
            insert_ascending(s, x).contains(k) <==> (s.contains(k) || k == x),
{
    lemma_count_below_split(s, x);
    let i = count_below(s, x) as int;
    let t = s.insert(i, x);
    assert forall|a: int, b: int| 0 <= a < b < t.len() implies t[a] < t[b] by {
        if b <= i {
        } else if a <= i {
            assert(t[b] == s[b - 1]);
        } else {
            assert(t[a] == s[a - 1] && t[b] == s[b - 1]);
        }
    }
    assert forall|k: AccountId| #[trigger] t.contains(k) <==> (s.contains(k) || k == x) by {
        if t.contains(k) {
            let a = choose|a: int| 0 <= a < t.len() && t[a] == k;
            if a < i {
                assert(s[a] == k);
            } else if a > i {
                assert(s[a - 1] == k);
            }
        }
        if s.contains(k) {
            let a = choose|a: int| 0 <= a < s.len() && s[a] == k;
            if a < i {
                assert(t[a] == k);
            } else {
                assert(t[a + 1] == k);
            }
        }
        if k == x {
            assert(t[i] == k);
        }
    }
}

/// Once a prefix of the legs names a missing account, the first such account
/// is the same for all the legs.
proof fn lemma_first_missing_prefix(m: LedgerModel, es: Seq<LedgerEntry>, k: int)
    requires
        0 <= k <= es.len(),
        first_missing_account(m, es.subrange(0, k)) is Some,
    ensures
        first_missing_account(m, es) == first_missing_account(m, es.subrange(0, k)),
    decreases es.len(),
{
    if k < es.len() {
        assert(es.drop_last().subrange(0, k) =~= es.subrange(0, k));
        lemma_first_missing_prefix(m, es.drop_last(), k);
    } else {
        assert(es.subrange(0, k) =~= es);
    }
}

/// The projection of one organization's journal.
#[derive(Debug)]
pub struct Ledger {
    account_map: BTreeMap<AccountId, Account>,
    account_ids: Vec<AccountId>,
    currency_map: BTreeMap<CurrencyId, Currency>,
    contact_map: BTreeMap<ContactId, Contact>,
    transaction_map: BTreeMap<TransactionId, Transaction>,
    transaction_entries_map: BTreeMap<TransactionId, Vec<LedgerEntry>>,
    account_entries_map: BTreeMap<AccountId, Vec<LedgerEntry>>,
}

impl View for Ledger {
    type V = LedgerModel;

    closed spec fn view(&self) -> LedgerModel {
        LedgerModel {
            accounts: self.account_map@,
            account_order: self.account_ids@,
            currencies: self.currency_map@,
            contacts: self.contact_map@,
            transactions: self.transaction_map@,
            transaction_entries: self.transaction_entries_map@.map_values(
                |v: Vec<LedgerEntry>| v@,
            ),
            account_entries: self.account_entries_map@.map_values(|v: Vec<LedgerEntry>| v@),
        }
    }
}

impl Ledger {
    /// An empty ledger.
    pub fn new() -> (r: Ledger)
        ensures
            r@ == LedgerModel::empty(),
            r@.wf(),
    {
        let r = Ledger {
            account_map: BTreeMap::new(),
            account_ids: Vec::new(),
            currency_map: BTreeMap::new(),
            contact_map: BTreeMap::new(),
            transaction_map: BTreeMap::new(),
            transaction_entries_map: BTreeMap::new(),
            account_entries_map: BTreeMap::new(),
        };
        assert(r@.transaction_entries =~= Map::empty());
        assert(r@.account_entries =~= Map::empty());
        r
    }

    /// Puts `id` into the ascending list of account ids.
    fn insert_account_id(&mut self, id: AccountId)
        requires
            ascending(old(self).account_ids@),
            !old(self).account_ids@.contains(id),
        ensures
            final(self).account_ids@ == insert_ascending(old(self).account_ids@, id),
            ascending(final(self).account_ids@),
            forall|k: AccountId| #[trigger]
                final(self).account_ids@.contains(k) <==> (old(self).account_ids@.contains(k)
                    || k == id),
            final(self).account_map == old(self).account_map,
            final(self).currency_map == old(self).currency_map,
            final(self).contact_map == old(self).contact_map,
            final(self).transaction_map == old(self).transaction_map,
            final(self).transaction_entries_map == old(self).transaction_entries_map,
            final(self).account_entries_map == old(self).account_entries_map,
    {
        let ghost s = self.account_ids@;
        let mut i: usize = 0;
        while i < self.account_ids.len() && self.account_ids[i] < id
            invariant
                0 <= i <= self.account_ids.len(),
                self.account_ids@ == s,
                forall|j: int| 0 <= j < i ==> s[j] < id,
            decreases self.account_ids.len() - i,
        {
            i = i + 1;
        }
        proof {
            lemma_count_below_split(s, id);
            let c = count_below(s, id) as int;
            if i < c {
                assert(s[i as int] < id);
            } else if i > c {
                assert(s[c] > id);
            }
            assert(i == c);
            lemma_insert_ascending(s, id);
        }
        self.account_ids.insert(i, id);
    }

    /// Adds an account whose id is new and whose contact or currency the
    /// ledger holds.
    pub fn add_account(&mut self, account: Account) -> (r: Result<(), Error>)
        requires
            old(self)@.wf(),
        ensures
            final(self)@.wf(),
            match old(self)@.add_account(account) {
                Ok(m) => r == Ok::<(), Error>(()) && final(self)@ == m,
                Err(e) => r == Err::<(), Error>(e) && final(self)@ == old(self)@,
            },
    {
        if self.account_map.contains_key(&account.id) {
            return Err(Error::AccountExists(account.id));
        }
        match self.account_type_valid(&account.account_type) {
            Err(e) => {
                return Err(e);
            },
            Ok(()) => {},
        }
        let id = account.id;
        self.insert_account_id(id);
        self.account_map.insert(id, account);
        Ok(())
    }

    /// Adds a currency whose id is new.
    pub fn add_currency(&mut self, currency: Currency) -> (r: Result<(), Error>)
        requires
            old(self)@.wf(),
        ensures
            final(self)@.wf(),
            match old(self)@.add_currency(currency) {
                Ok(m) => r == Ok::<(), Error>(()) && final(self)@ == m,
                Err(e) => r == Err::<(), Error>(e) && final(self)@ == old(self)@,
            },
    {
        if self.currency_map.contains_key(&currency.id) {
            return Err(Error::CurrencyExists(currency.id));
        }
        self.currency_map.insert(currency.id, currency);
        Ok(())
    }

    /// Adds a contact whose id is new.
    pub fn add_contact(&mut self, contact: Contact) -> (r: Result<(), Error>)
        requires
            old(self)@.wf(),
        ensures
            final(self)@.wf(),
            match old(self)@.add_contact(contact) {
                Ok(m) => r == Ok::<(), Error>(()) && final(self)@ == m,
                Err(e) => r == Err::<(), Error>(e) && final(self)@ == old(self)@,
            },
    {
        if self.contact_map.contains_key(&contact.id) {
            return Err(Error::ContactExists(contact.id));
        }
        self.contact_map.insert(contact.id, contact);
        Ok(())
    }

    /// Adds a transaction whose id is new.
    pub fn add_transaction(&mut self, transaction: Transaction) -> (r: Result<(), Error>)
        requires
            old(self)@.wf(),
        ensures
            final(self)@.wf(),
            match old(self)@.add_transaction(transaction) {
                Ok(m) => r == Ok::<(), Error>(()) && final(self)@ == m,
                Err(e) => r == Err::<(), Error>(e) && final(self)@ == old(self)@,
            },
    {
        if self.transaction_map.contains_key(&transaction.id) {
            return Err(Error::TransactionExists(transaction.id));
        }
        self.transaction_map.insert(transaction.id, transaction);
        Ok(())
    }

    /// Records the legs of a transaction that has none recorded yet.
    pub fn add_ledger_entries(
        &mut self,
        transaction_id: TransactionId,
        ledger_entries: Vec<LedgerEntry>,
    ) -> (r: Result<(), Error>)
        requires
            old(self)@.wf(),
        ensures
            final(self)@.wf(),
            match old(self)@.add_ledger_entries(transaction_id, ledger_entries@) {
                Ok(m) => r == Ok::<(), Error>(()) && final(self)@ == m,
                Err(e) => r == Err::<(), Error>(e) && final(self)@ == old(self)@,
            },
    {
        if self.transaction_entries_map.contains_key(&transaction_id) {
            return Err(Error::LedgerEntriesExists(transaction_id));
        }
        self.transaction_entries_map.insert(transaction_id, ledger_entries);
        proof {
            assert(self@.transaction_entries =~= old(self)@.transaction_entries.insert(
                transaction_id,
                ledger_entries@,
            ));
        }
        Ok(())
    }

    /// Appends each leg to the list of the account that it names.
    pub fn add_account_entries(&mut self, entries: &Vec<LedgerEntry>)
        requires
            old(self)@.wf(),
        ensures
            final(self)@.wf(),
            final(self)@ == old(self)@.add_account_entries(entries@),
    {
        let ghost m0 = old(self)@.account_entries;
        let mut i: usize = 0;
        while i < entries.len()
            invariant
                0 <= i <= entries.len(),
                old(self)@.wf(),
                self@ == (LedgerModel {
                    account_entries: append_account_entries(m0, entries@.subrange(0, i as int)),
                    ..old(self)@
                }),
            decreases entries.len() - i,
        {
            let entry = entries[i].clone();
            let account_id = entry.account_id;
            let mut list = match self.account_entries_map.remove(&account_id) {
                Some(v) => v,
                None => Vec::new(),
            };
            list.push(entry);
            self.account_entries_map.insert(account_id, list);
            proof {
                let pre = entries@.subrange(0, i as int);
                let post = entries@.subrange(0, i + 1);
                assert(post.drop_last() =~= pre);
                assert(post.last() == entries@[i as int]);
                assert(self@.account_entries =~= append_account_entries(m0, post));
            }
            i = i + 1;
        }
        proof {
            assert(entries@.subrange(0, entries.len() as int) =~= entries@);
            assert(self@.accounts == old(self)@.accounts);
            assert(self@.account_order == old(self)@.account_order);
        }
    }

    pub fn get_account(&self, id: &AccountId) -> (r: Option<&Account>)
        ensures
            match r {
                Some(a) => self@.accounts.contains_key(*id) && *a == self@.accounts[*id],
                None => !self@.accounts.contains_key(*id),
            },
    {
        self.account_map.get(id)
    }

    pub fn get_currency(&self, id: &CurrencyId) -> (r: Option<&Currency>)
        ensures
            match r {
                Some(c) => self@.currencies.contains_key(*id) && *c == self@.currencies[*id],
                None => !self@.currencies.contains_key(*id),
            },
    {
        self.currency_map.get(id)
    }

    pub fn get_contact(&self, id: &ContactId) -> (r: Option<&Contact>)
        ensures
            match r {
                Some(c) => self@.contacts.contains_key(*id) && *c == self@.contacts[*id],
                None => !self@.contacts.contains_key(*id),
            },
    {
        self.contact_map.get(id)
    }

    pub fn get_transaction(&self, id: &TransactionId) -> (r: Option<&Transaction>)
        ensures
            match r {
                Some(t) => self@.transactions.contains_key(*id) && *t == self@.transactions[*id],
                None => !self@.transactions.contains_key(*id),
            },
    {
        self.transaction_map.get(id)
    }

    /// The legs recorded for a transaction.
    pub fn get_transaction_entries(&self, id: &TransactionId) -> (r: Option<&Vec<LedgerEntry>>)
        ensures
            match r {
                Some(v) => self@.transaction_entries.contains_key(*id) && v@
                    == self@.transaction_entries[*id],
                None => !self@.transaction_entries.contains_key(*id),
            },
    {
        self.transaction_entries_map.get(id)
    }

    /// The legs that name an account, in the order they arrived.
    pub fn get_account_entries(&self, account_id: &AccountId) -> (r: Option<&Vec<LedgerEntry>>)
        ensures
            match r {
                Some(v) => self@.account_entries.contains_key(*account_id) && v@
                    == self@.account_entries[*account_id],
                None => !self@.account_entries.contains_key(*account_id),
            },
    {
        self.account_entries_map.get(account_id)
    }

    /// The accounts, ascending by id.
    pub fn accounts(&self) -> (r: Vec<&Account>)
        requires
            self@.wf(),
        ensures
            r.len() == self@.account_order.len(),
            forall|i: int| 0 <= i < r.len() ==> *r[i] == self@.accounts[self@.account_order[i]],
    {
        let mut r: Vec<&Account> = Vec::new();
        let mut i: usize = 0;
        while i < self.account_ids.len()
            invariant
                self@.wf(),
                0 <= i <= self.account_ids.len(),
                r.len() == i,
                forall|j: int| 0 <= j < i ==> *r[j] == self@.accounts[self@.account_order[j]],
            decreases self.account_ids.len() - i,
        {
            let id = self.account_ids[i];
            proof {
                assert(self@.account_order.contains(id));
            }
            match self.account_map.get(&id) {
                Some(a) => r.push(a),
                None => {},
            }
            i = i + 1;
        }
        r
    }

    /// The currencies, ascending by id.
    pub fn currencies(&self) -> (r: Vec<&Currency>)
        requires
            self@.wf(),
        ensures
            r.len() == self@.currencies.len(),
            forall|i: int|
                0 <= i < r.len() ==> self@.currencies.contains_key(r[i].id) && *r[i]
                    == self@.currencies[r[i].id],
            forall|i: int, j: int| 0 <= i < j < r.len() ==> r[i].id < r[j].id,
    {
        let iter = self.currency_map.iter();
        let ghost s0 = iter.remaining();
        proof {
            assert(obeys_cmp::<CurrencyId>());
            let keys = s0.map_values(|kv: (&CurrencyId, &Currency)| *kv.0);
            assert(increasing_seq(keys));
            assert forall|j: int| 0 <= j < s0.len() implies self@.currencies.contains_key(*s0[j].0)
                && self@.currencies[*s0[j].0] == *s0[j].1 by {
                assert(self@.currencies.contains_key(*s0[j].0));
            }
            assert forall|a: int, b: int| 0 <= a < b < s0.len() implies *s0[a].0 < *s0[b].0 by {
                assert(keys[a].cmp_spec(&keys[b]) is Less);
            }
        }
        let mut r: Vec<&Currency> = Vec::new();
        for (k, v) in it: iter
            invariant
                self@.wf(),
                it.seq() == s0,
                r.len() == it.index(),
                forall|j: int| 0 <= j < r.len() ==> r[j] == s0[j].1,
        {
            r.push(v);
        }
        r
    }

    /// The contacts, ascending by id.
    pub fn contacts(&self) -> (r: Vec<&Contact>)
        requires
            self@.wf(),
        ensures
            r.len() == self@.contacts.len(),
            forall|i: int|
                0 <= i < r.len() ==> self@.contacts.contains_key(r[i].id) && *r[i]
                    == self@.contacts[r[i].id],
            forall|i: int, j: int| 0 <= i < j < r.len() ==> r[i].id < r[j].id,
    {
        let iter = self.contact_map.iter();
        let ghost s0 = iter.remaining();
        proof {
            assert(obeys_cmp::<ContactId>());
            let keys = s0.map_values(|kv: (&ContactId, &Contact)| *kv.0);
            assert(increasing_seq(keys));
            assert forall|j: int| 0 <= j < s0.len() implies self@.contacts.contains_key(*s0[j].0)
                && self@.contacts[*s0[j].0] == *s0[j].1 by {
                assert(self@.contacts.contains_key(*s0[j].0));
            }
            assert forall|a: int, b: int| 0 <= a < b < s0.len() implies *s0[a].0 < *s0[b].0 by {
                assert(keys[a].cmp_spec(&keys[b]) is Less);
            }
        }
        let mut r: Vec<&Contact> = Vec::new();
        for (k, v) in it: iter
            invariant
                self@.wf(),
                it.seq() == s0,
                r.len() == it.index(),
                forall|j: int| 0 <= j < r.len() ==> r[j] == s0[j].1,
        {
            r.push(v);
        }
        r
    }

    /// The transactions, ascending by id.
    pub fn transactions(&self) -> (r: Vec<&Transaction>)
        requires
            self@.wf(),
        ensures
            r.len() == self@.transactions.len(),
            forall|i: int|
                0 <= i < r.len() ==> self@.transactions.contains_key(r[i].id) && *r[i]
                    == self@.transactions[r[i].id],
            forall|i: int, j: int| 0 <= i < j < r.len() ==> r[i].id < r[j].id,
    {
        let iter = self.transaction_map.iter();
        let ghost s0 = iter.remaining();
        proof {
            assert(obeys_cmp::<TransactionId>());
            let keys = s0.map_values(|kv: (&TransactionId, &Transaction)| *kv.0);
            assert(increasing_seq(keys));
            assert forall|j: int| 0 <= j < s0.len() implies self@.transactions.contains_key(*s0[j].0)
                && self@.transactions[*s0[j].0] == *s0[j].1 by {
                assert(self@.transactions.contains_key(*s0[j].0));
            }
            assert forall|a: int, b: int| 0 <= a < b < s0.len() implies *s0[a].0 < *s0[b].0 by {
                assert(keys[a].cmp_spec(&keys[b]) is Less);
            }
        }
        let mut r: Vec<&Transaction> = Vec::new();
        for (k, v) in it: iter
            invariant
                self@.wf(),
                it.seq() == s0,
                r.len() == it.index(),
                forall|j: int| 0 <= j < r.len() ==> r[j] == s0[j].1,
        {
            r.push(v);
        }
        r
    }

    /// The parent of an account: none for a root, an error where the parent
    /// is not held.
    pub fn parent(&self, account: &Account) -> (r: Result<Option<&Account>, Error>)
        ensures
            match account.parent_id {
                None => r is Ok && r->Ok_0 is None,
                Some(p) => if self@.accounts.contains_key(p) {
                    r is Ok && r->Ok_0 is Some && *r->Ok_0->Some_0 == self@.accounts[p]
                } else {
                    r == Err::<Option<&Account>, Error>(Error::MissingAccount(p))
                },
            },
    {
        match account.parent_id {
            Some(id) => match self.account_map.get(&id) {
                Some(a) => Ok(Some(a)),
                None => Err(Error::MissingAccount(id)),
            },
            None => Ok(None),
        }
    }

    /// The accounts whose parent is `account_id`, ascending by id.
    pub fn children(&self, account_id: &AccountId) -> (r: Vec<&Account>)
        requires
            self@.wf(),
        ensures
            r.len() == self@.child_ids(*account_id).len(),
            forall|i: int|
                0 <= i < r.len() ==> *r[i] == self@.accounts[self@.child_ids(*account_id)[i]],
            forall|i: int| 0 <= i < r.len() ==> r[i].id == self@.child_ids(*account_id)[i],
    {
        let ghost m = self@;
        let mut r: Vec<&Account> = Vec::new();
        let mut i: usize = 0;
        while i < self.account_ids.len()
            invariant
                self@ == m,
                m.wf(),
                0 <= i <= self.account_ids.len(),
                r.len() == children_in(m.accounts, m.account_order.subrange(0, i as int), *account_id).len(),
                forall|j: int|
                    0 <= j < r.len() ==> *r[j] == m.accounts[children_in(
                        m.accounts,
                        m.account_order.subrange(0, i as int),
                        *account_id,
                    )[j]],
            decreases self.account_ids.len() - i,
        {
            let id = self.account_ids[i];
            proof {
                assert(m.account_order.contains(id));
                let post = m.account_order.subrange(0, i + 1);
                assert(post.drop_last() =~= m.account_order.subrange(0, i as int));
            }
            match self.account_map.get(&id) {
                Some(a) => {
                    if a.parent_id == Some(*account_id) {
                        r.push(a);
                    }
                },
                None => {},
            }
            i = i + 1;
        }
        proof {
            assert(m.account_order.subrange(0, i as int) =~= m.account_order);
            assert forall|j: int| 0 <= j < r.len() implies r[j].id == m.child_ids(*account_id)[j] by {
                lemma_children_held(m, m.account_order, *account_id, j);
            }
        }
        r
    }

    /// How many accounts the ledger holds.
    pub fn account_count(&self) -> (r: usize)
        ensures
            r == self@.accounts.len(),
    {
        self.account_map.len()
    }

    /// The ids of the accounts whose parent is the given account, ascending.
    pub fn child_ids(&self, account: &Account) -> (r: Vec<AccountId>)
        requires
            self@.wf(),
        ensures
            r@ == self@.child_ids(account.id),
    {
        let children = self.children(&account.id);
        let ghost c = self@.child_ids(account.id);
        let mut r: Vec<AccountId> = Vec::new();
        let mut i: usize = 0;
        while i < children.len()
            invariant
                self@.wf(),
                c == self@.child_ids(account.id),
                children.len() == c.len(),
                forall|j: int| 0 <= j < children.len() ==> *children[j] == self@.accounts[c[j]],
                0 <= i <= children.len(),
                r@ == c.subrange(0, i as int),
            decreases children.len() - i,
        {
            proof {
                lemma_children_held(self@, self@.account_order, account.id, i as int);
            }
            r.push(children[i].id);
            proof {
                assert(r@ =~= c.subrange(0, i + 1));
            }
            i = i + 1;
        }
        proof {
            assert(c.subrange(0, i as int) =~= c);
        }
        r
    }

    fn full_number_within(&self, account: &Account, fuel: usize) -> (r: Result<
        Vec<AccountNumber>,
        Error,
    >)
        requires
            self@.wf(),
        ensures
            match self@.full_number_within(*account, fuel as nat) {
                Ok(s) => r is Ok && r->Ok_0@ == s,
                Err(e) => r == Err::<Vec<AccountNumber>, Error>(e),
            },
        decreases fuel,
    {
        match account.parent_id {
            None => {
                let r = vec![account.number];
                proof {
                    assert(r@ =~= seq![account.number]);
                }
                Ok(r)
            },
            Some(p) => match self.account_map.get(&p) {
                None => Err(Error::MissingAccount(p)),
                Some(parent) => {
                    if fuel == 0 {
                        return Err(Error::AccountCycle(account.id));
                    }
                    match self.full_number_within(parent, fuel - 1) {
                        Ok(mut v) => {
                            v.push(account.number);
                            Ok(v)
                        },
                        Err(e) => Err(e),
                    }
                },
            },
        }
    }

    /// The numbers from the root down to the account, root first.
    pub fn full_number(&self, account: &Account) -> (r: Result<Vec<AccountNumber>, Error>)
        requires
            self@.wf(),
        ensures
            match self@.full_number(*account) {
                Ok(s) => r is Ok && r->Ok_0@ == s,
                Err(e) => r == Err::<Vec<AccountNumber>, Error>(e),
            },
    {
        let n = self.account_map.len();
        self.full_number_within(account, n)
    }

    /// The first account, by id, that has no parent and belongs to `category`.
    pub fn get_root_account(&self, category: AccountCategory) -> (r: Option<AccountId>)
        requires
            self@.wf(),
        ensures
            match r {
                Some(id) => exists|i: int|
                    0 <= i < self@.account_order.len() && self@.account_order[i] == id
                        && is_root_of(self@, id, category) && forall|j: int|
                        0 <= j < i ==> !is_root_of(self@, #[trigger] self@.account_order[j], category),
                None => forall|i: int|
                    0 <= i < self@.account_order.len() ==> !is_root_of(
                        self@,
                        #[trigger] self@.account_order[i],
                        category,
                    ),
            },
    {
        let mut i: usize = 0;
        while i < self.account_ids.len()
            invariant
                self@.wf(),
                0 <= i <= self.account_ids.len(),
                forall|j: int|
                    0 <= j < i ==> !is_root_of(self@, #[trigger] self@.account_order[j], category),
            decreases self.account_ids.len() - i,
        {
            let id = self.account_ids[i];
            proof {
                assert(self@.account_order.contains(id));
            }
            match self.account_map.get(&id) {
                Some(a) => {
                    if a.parent_id.is_none() && a.account_category == category {
                        return Some(id);
                    }
                },
                None => {},
            }
            i = i + 1;
        }
        None
    }

    /// The account of the first leg that names an account the ledger does
    /// not hold.
    fn missing_account(&self, entries: &Vec<LedgerEntry>) -> (r: Option<AccountId>)
        ensures
            r == first_missing_account(self@, entries@),
    {
        let ghost es = entries@;
        let mut i: usize = 0;
        while i < entries.len()
            invariant
                0 <= i <= entries.len(),
                es == entries@,
                first_missing_account(self@, es.subrange(0, i as int)) is None,
            decreases entries.len() - i,
        {
            proof {
                assert(es.subrange(0, i + 1).drop_last() =~= es.subrange(0, i as int));
                assert(es.subrange(0, i + 1).last() == es[i as int]);
            }
            let id = entries[i].account_id;
            if !self.account_map.contains_key(&id) {
                proof {
                    lemma_first_missing_prefix(self@, es, i + 1);
                }
                return Some(id);
            }
            i = i + 1;
        }
        proof {
            assert(es.subrange(0, i as int) =~= es);
        }
        None
    }

    /// Carries out an action for this organization.
    pub(crate) fn apply_action(&mut self, action: Action) -> (r: Result<(), Error>)
        requires
            old(self)@.wf(),
        ensures
            final(self)@.wf(),
            (final(self)@, r) == old(self)@.apply_action(action),
    {
        match action {
            Action::AddCurrency { currency } => self.add_currency(currency),
            Action::AddContact { contact } => self.add_contact(contact),
            Action::AddAccount { account } => self.add_account(account),
            Action::AddTransaction { transaction, ledger_entries } => {
                let transaction_id = transaction.id;
                if self.transaction_map.contains_key(&transaction_id) {
                    return Err(Error::TransactionExists(transaction_id));
                }
                match self.missing_account(&ledger_entries) {
                    Some(id) => {
                        return Err(Error::MissingAccount(id));
                    },
                    None => {},
                }
                match self.add_transaction(transaction) {
                    Err(e) => {
                        return Err(e);
                    },
                    Ok(()) => {},
                }
                let copies = clone_entries(&ledger_entries);
                match self.add_ledger_entries(transaction_id, ledger_entries) {
                    Err(e) => {
                        return Err(e);
                    },
                    Ok(()) => {},
                }
                self.add_account_entries(&copies);
                Ok(())
            },
            Action::AddOrganization { .. } => Ok(()),
        }
    }

    /// `Ok` where the ledger holds an account of this id.
    pub fn account_exists(&self, account_id: &AccountId) -> (r: Result<(), Error>)
        ensures
            r == if self@.accounts.contains_key(*account_id) {
                Ok(())
            } else {
                Err(Error::MissingAccount(*account_id))
            },
    {
        if self.account_map.contains_key(account_id) {
            Ok(())
        } else {
            Err(Error::MissingAccount(*account_id))
        }
    }

    /// `Ok` where the ledger holds a currency of this id.
    pub fn currency_exists(&self, currency_id: &CurrencyId) -> (r: Result<(), Error>)
        ensures
            r == if self@.currencies.contains_key(*currency_id) {
                Ok(())
            } else {
                Err(Error::MissingCurrency(*currency_id))
            },
    {
        if self.currency_map.contains_key(currency_id) {
            Ok(())
        } else {
            Err(Error::MissingCurrency(*currency_id))
        }
    }

    /// `Ok` where the ledger holds a contact of this id.
    pub fn contact_exists(&self, contact_id: &ContactId) -> (r: Result<(), Error>)
        ensures
            r == if self@.contacts.contains_key(*contact_id) {
                Ok(())
            } else {
                Err(Error::MissingContact(*contact_id))
            },
    {
        if self.contact_map.contains_key(contact_id) {
            Ok(())
        } else {
            Err(Error::MissingContact(*contact_id))
        }
    }

    /// `Ok` where the ledger holds a transaction of this id.
    pub fn transaction_exists(&self, transaction_id: &TransactionId) -> (r: Result<(), Error>)
        ensures
            r == if self@.transactions.contains_key(*transaction_id) {
                Ok(())
            } else {
                Err(Error::MissingTransaction(*transaction_id))
            },
    {
        if self.transaction_map.contains_key(transaction_id) {
            Ok(())
        } else {
            Err(Error::MissingTransaction(*transaction_id))
        }
    }

    /// `Ok` where the contact or currency that the account type names is held.
    pub fn account_type_valid(&self, account_type: &AccountType) -> (r: Result<(), Error>)
        ensures
            r == match account_type_error(self@, *account_type) {
                Some(e) => Err(e),
                None => Ok(()),
            },
    {
        match account_type {
            AccountType::ContactAccount { contact_id } => self.contact_exists(contact_id),
            AccountType::BankAccount { currency_id, .. } => self.currency_exists(currency_id),
            _ => Ok(()),
        }
    }
}

} // verus!
