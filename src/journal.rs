//! The journal's vocabulary: entries, the actions they carry and the
//! entities those actions create.
use vstd::prelude::*;
use crate::decimal::Amount;
use crate::ids::{generate_id, next_id_after};

verus! {

/// Version of the entry format that new entries carry.
pub const DEFAULT_VERSION: ApiVersion = 1;

/// Identifier of a journal entry.
pub type JournalEntryId = u128;

/// Version of the entry format.
pub type ApiVersion = u16;

/// Identifier of an organization.
pub type OrganizationId = u128;

/// Identifier of an account.
pub type AccountId = u128;

/// Number of an account within its parent.
pub type AccountNumber = u32;

/// Identifier of a contact.
pub type ContactId = u128;

/// Identifier of a transaction.
pub type TransactionId = u128;

/// Currency id: ISO 4217 numeric code, above 2000 for other currencies.
pub type CurrencyId = u32;

/// Number of digits after the point for a currency.
pub type CurrencyScale = u32;

/// Seconds since the Unix epoch, UTC.
pub type Timestamp = i64;

/// Days since the Unix epoch.
pub type DayNumber = i32;

#[derive(Debug, PartialEq, Eq)]
pub struct Organization {
    pub id: OrganizationId,
    pub contact_id: ContactId,
}

#[derive(Debug, Clone, Copy, PartialEq, Eq, Structural)]
pub enum ContactType {
    Individual,
    Organization,
    OrganizationUnit,
}

#[derive(Debug, PartialEq, Eq)]
pub struct Contact {
    pub id: ContactId,
    pub contact_type: ContactType,
    pub name: String,
    pub address: Option<String>,
}

#[derive(Debug, PartialEq, Eq)]
pub enum AccountType {
    LedgerAccount,
    ContactAccount { contact_id: ContactId },
    BankAccount { currency_id: CurrencyId, routing: u32, account: u64 },
    BitcoinAccount { descriptor: String, change_descriptor: Option<String> },
}

#[derive(Debug, Clone, Copy, PartialEq, Eq, Structural)]
pub enum BalanceSheetCategory {
    Asset,
    Liability,
    Equity,
}

#[derive(Debug, Clone, Copy, PartialEq, Eq, Structural)]
pub enum IncomeStatementCategory {
    OperatingRevenue,
    OperatingExpense,
    NonOperatingRevenue,
    NonOperatingExpense,
}

/// The financial statement an account belongs to.
#[derive(Debug, Clone, Copy, PartialEq, Eq, Structural)]
pub enum AccountCategory {
    BalanceSheet(BalanceSheetCategory),
    IncomeStatement(IncomeStatementCategory),
}

#[derive(Debug, PartialEq, Eq)]
pub struct Account {
    pub id: AccountId,
    pub parent_id: Option<AccountId>,
    pub number: AccountNumber,
    pub description: String,
    pub account_type: AccountType,
    pub account_category: AccountCategory,
}

/// Currencies the library knows by name.
#[derive(Debug, Clone, Copy, PartialEq, Eq, Structural)]
pub enum CurrencyCode {
    USD,
    BTC,
}

#[derive(Debug, PartialEq, Eq)]
pub struct Currency {
    pub id: CurrencyId,
    pub code: String,
    pub scale: CurrencyScale,
    pub name: String,
}

#[derive(Debug, Clone, Copy, PartialEq, Eq, Structural)]
pub enum EntryType {
    Debit,
    Credit,
}

#[derive(Debug, PartialEq, Eq)]
pub enum PaymentMethod {
    Bitcoin { address: String },
    Ach { contact_id: ContactId, currency_id: CurrencyId, routing: u32, account: u64 },
    Check { contact_id: ContactId, currency_id: CurrencyId },
    Cash,
}

#[derive(Debug, PartialEq, Eq)]
pub enum PaymentTerms {
    ImmediatePayment,
    PaymentInAdvance,
    NetDays { days: u32, late_fee_interest: Amount },
    NetDaysDiscount { days: u32, discount_days: u32, discount: Amount, late_fee_interest: Amount },
}

#[derive(Debug, PartialEq, Eq)]
pub enum Payment {
    Bitcoin { details: String },
    Lightning { details: String },
    Ach {
        transaction_id: String,
        datetime: Timestamp,
        currency_id: CurrencyId,
        amount: Amount,
        memo: String,
    },
    Check {
        check_number: u32,
        check_routing: u32,
        check_account: u32,
        date: DayNumber,
        currency_id: CurrencyId,
        amount: Amount,
        memo: String,
    },
    Cash { date: DayNumber, currency_id: CurrencyId, amount: Amount },
}

#[derive(Debug, PartialEq, Eq)]
pub enum TransactionType {
    Invoice { payment_method: PaymentMethod, payment_terms: PaymentTerms, payments: Vec<Payment> },
    LedgerAdjustment,
}

/// A set of debit and credit legs, meant to balance; the legs are
/// [`LedgerEntry`] values that travel beside it.
#[derive(Debug, PartialEq, Eq)]
pub struct Transaction {
    pub id: TransactionId,
    pub datetime: Timestamp,
    pub description: String,
    pub transaction_type: TransactionType,
}

/// A currency and an amount of it.
#[derive(Debug, Clone, Copy, PartialEq, Eq, Structural)]
pub struct CurrencyAmount {
    pub currency_id: CurrencyId,
    pub amount: Amount,
}

/// One debit or credit leg of a transaction.
#[derive(Debug, PartialEq, Eq)]
pub struct LedgerEntry {
    pub transaction_id: TransactionId,
    pub entry_type: EntryType,
    pub account_id: AccountId,
    pub currency_amount: CurrencyAmount,
    pub description: Option<String>,
}

/// What a journal entry asks of the ledger.
#[derive(Debug, PartialEq, Eq)]
pub enum Action {
    AddOrganization { contact: Contact, organization: Organization },
    AddCurrency { currency: Currency },
    AddContact { contact: Contact },
    AddAccount { account: Account },
    AddTransaction { transaction: Transaction, ledger_entries: Vec<LedgerEntry> },
}

/// One immutable record of the journal.
#[derive(Debug, PartialEq, Eq)]
pub struct JournalEntry {
    pub id: JournalEntryId,
    pub version: ApiVersion,
    pub organization_id: OrganizationId,
    pub action: Action,
}

impl TransactionType {
    /// The same terms, with the same payments in the same order.
    pub open spec fn equiv(self, other: TransactionType) -> bool {
        match (self, other) {
            (
                TransactionType::Invoice { payment_method: m1, payment_terms: t1, payments: p1 },
                TransactionType::Invoice { payment_method: m2, payment_terms: t2, payments: p2 },
            ) => m1 == m2 && t1 == t2 && p1@ == p2@,
            (TransactionType::LedgerAdjustment, TransactionType::LedgerAdjustment) => true,
            _ => false,
        }
    }
}

impl Transaction {
    /// The same transaction, field by field.
    pub open spec fn equiv(self, other: Transaction) -> bool {
        &&& self.id == other.id
        &&& self.datetime == other.datetime
        &&& self.description == other.description
        &&& self.transaction_type.equiv(other.transaction_type)
    }
}

impl Action {
    /// The same action with the same values, legs in the same order.
    pub open spec fn equiv(self, other: Action) -> bool {
        match (self, other) {
            (
                Action::AddTransaction { transaction: t1, ledger_entries: e1 },
                Action::AddTransaction { transaction: t2, ledger_entries: e2 },
            ) => t1.equiv(t2) && e1@ == e2@,
            (Action::AddTransaction { .. }, _) => false,
            (_, Action::AddTransaction { .. }) => false,
            _ => self == other,
        }
    }
}

impl JournalEntry {
    /// The same entry, field by field.
    pub open spec fn equiv(self, other: JournalEntry) -> bool {
        &&& self.id == other.id
        &&& self.version == other.version
        &&& self.organization_id == other.organization_id
        &&& self.action.equiv(other.action)
    }
}

fn clone_opt_string(s: &Option<String>) -> (r: Option<String>)
    ensures
        r == *s,
{
    match s {
        Some(t) => Some(t.clone()),
        None => None,
    }
}

fn clone_string(s: &String) -> (r: String)
    ensures
        r == *s,
{
    s.clone()
}

impl Clone for Contact {
    fn clone(&self) -> (r: Self)
        ensures
            r == *self,
    {
        Contact {
            id: self.id,
            contact_type: self.contact_type,
            name: clone_string(&self.name),
            address: clone_opt_string(&self.address),
        }
    }
}

impl Clone for AccountType {
    fn clone(&self) -> (r: Self)
        ensures
            r == *self,
    {
        match self {
            AccountType::LedgerAccount => AccountType::LedgerAccount,
            AccountType::ContactAccount { contact_id } => AccountType::ContactAccount {
                contact_id: *contact_id,
            },
            AccountType::BankAccount { currency_id, routing, account } => AccountType::BankAccount {
                currency_id: *currency_id,
                routing: *routing,
                account: *account,
            },
            AccountType::BitcoinAccount { descriptor, change_descriptor } => {
                AccountType::BitcoinAccount {
                    descriptor: clone_string(descriptor),
                    change_descriptor: clone_opt_string(change_descriptor),
                }
            },
        }
    }
}

impl Clone for Account {
    fn clone(&self) -> (r: Self)
        ensures
            r == *self,
    {
        Account {
            id: self.id,
            parent_id: self.parent_id,
            number: self.number,
            description: clone_string(&self.description),
            account_type: self.account_type.clone(),
            account_category: self.account_category,
        }
    }
}

impl Clone for LedgerEntry {
    fn clone(&self) -> (r: Self)
        ensures
            r == *self,
    {
        LedgerEntry {
            transaction_id: self.transaction_id,
            entry_type: self.entry_type,
            account_id: self.account_id,
            currency_amount: self.currency_amount,
            description: clone_opt_string(&self.description),
        }
    }
}

impl Clone for Organization {
    fn clone(&self) -> (r: Self)
        ensures
            r == *self,
    {
        Organization { id: self.id, contact_id: self.contact_id }
    }
}

impl Clone for Currency {
    fn clone(&self) -> (r: Self)
        ensures
            r == *self,
    {
        Currency {
            id: self.id,
            code: clone_string(&self.code),
            scale: self.scale,
            name: clone_string(&self.name),
        }
    }
}

impl Clone for PaymentMethod {
    fn clone(&self) -> (r: Self)
        ensures
            r == *self,
    {
        match self {
            PaymentMethod::Bitcoin { address } => PaymentMethod::Bitcoin {
                address: clone_string(address),
            },
            PaymentMethod::Ach { contact_id, currency_id, routing, account } => PaymentMethod::Ach {
                contact_id: *contact_id,
                currency_id: *currency_id,
                routing: *routing,
                account: *account,
            },
            PaymentMethod::Check { contact_id, currency_id } => PaymentMethod::Check {
                contact_id: *contact_id,
                currency_id: *currency_id,
            },
            PaymentMethod::Cash => PaymentMethod::Cash,
        }
    }
}

impl Clone for PaymentTerms {
    fn clone(&self) -> (r: Self)
        ensures
            r == *self,
    {
        match self {
            PaymentTerms::ImmediatePayment => PaymentTerms::ImmediatePayment,
            PaymentTerms::PaymentInAdvance => PaymentTerms::PaymentInAdvance,
            PaymentTerms::NetDays { days, late_fee_interest } => PaymentTerms::NetDays {
                days: *days,
                late_fee_interest: *late_fee_interest,
            },
            PaymentTerms::NetDaysDiscount { days, discount_days, discount, late_fee_interest } => {
                PaymentTerms::NetDaysDiscount {
                    days: *days,
                    discount_days: *discount_days,
                    discount: *discount,
                    late_fee_interest: *late_fee_interest,
                }
            },
        }
    }
}

impl Clone for Payment {
    fn clone(&self) -> (r: Self)
        ensures
            r == *self,
    {
        match self {
            Payment::Bitcoin { details } => Payment::Bitcoin { details: clone_string(details) },
            Payment::Lightning { details } => Payment::Lightning { details: clone_string(details) },
            Payment::Ach { transaction_id, datetime, currency_id, amount, memo } => Payment::Ach {
                transaction_id: clone_string(transaction_id),
                datetime: *datetime,
                currency_id: *currency_id,
                amount: *amount,
                memo: clone_string(memo),
            },
            Payment::Check {
                check_number,
                check_routing,
                check_account,
                date,
                currency_id,
                amount,
                memo,
            } => Payment::Check {
                check_number: *check_number,
                check_routing: *check_routing,
                check_account: *check_account,
                date: *date,
                currency_id: *currency_id,
                amount: *amount,
                memo: clone_string(memo),
            },
            Payment::Cash { date, currency_id, amount } => Payment::Cash {
                date: *date,
                currency_id: *currency_id,
                amount: *amount,
            },
        }
    }
}

fn clone_payments(v: &Vec<Payment>) -> (r: Vec<Payment>)
    ensures
        r@ == v@,
{
    let mut r: Vec<Payment> = Vec::new();
    let mut i: usize = 0;
    while i < v.len()
        invariant
            0 <= i <= v.len(),
            r@ == v@.subrange(0, i as int),
        decreases v.len() - i,
    {
        r.push(v[i].clone());
        proof {
            assert(r@ =~= v@.subrange(0, i + 1));
        }
        i = i + 1;
    }
    proof {
        assert(v@.subrange(0, i as int) =~= v@);
    }
    r
}

impl Clone for TransactionType {
    fn clone(&self) -> (r: Self)
        ensures
            r.equiv(*self),
    {
        match self {
            TransactionType::Invoice { payment_method, payment_terms, payments } => {
                TransactionType::Invoice {
                    payment_method: payment_method.clone(),
                    payment_terms: payment_terms.clone(),
                    payments: clone_payments(payments),
                }
            },
            TransactionType::LedgerAdjustment => TransactionType::LedgerAdjustment,
        }
    }
}

impl Clone for Transaction {
    fn clone(&self) -> (r: Self)
        ensures
            r.equiv(*self),
    {
        Transaction {
            id: self.id,
            datetime: self.datetime,
            description: clone_string(&self.description),
            transaction_type: self.transaction_type.clone(),
        }
    }
}

/// A copy of each leg, in order.
pub(crate) fn clone_entries(v: &Vec<LedgerEntry>) -> (r: Vec<LedgerEntry>)
    ensures
        r@ == v@,
{
    let mut r: Vec<LedgerEntry> = Vec::new();
    let mut i: usize = 0;
    while i < v.len()
        invariant
            0 <= i <= v.len(),
            r@ == v@.subrange(0, i as int),
        decreases v.len() - i,
    {
        r.push(v[i].clone());
        proof {
            assert(r@ =~= v@.subrange(0, i + 1));
        }
        i = i + 1;
    }
    proof {
        assert(v@.subrange(0, i as int) =~= v@);
    }
    r
}

impl Clone for Action {
    fn clone(&self) -> (r: Self)
        ensures
            r.equiv(*self),
    {
        match self {
            Action::AddOrganization { contact, organization } => Action::AddOrganization {
                contact: contact.clone(),
                organization: organization.clone(),
            },
            Action::AddCurrency { currency } => Action::AddCurrency { currency: currency.clone() },
            Action::AddContact { contact } => Action::AddContact { contact: contact.clone() },
            Action::AddAccount { account } => Action::AddAccount { account: account.clone() },
            Action::AddTransaction { transaction, ledger_entries } => Action::AddTransaction {
                transaction: transaction.clone(),
                ledger_entries: clone_entries(ledger_entries),
            },
        }
    }
}

impl Clone for JournalEntry {
    fn clone(&self) -> (r: Self)
        ensures
            r.equiv(*self),
    {
        JournalEntry {
            id: self.id,
            version: self.version,
            organization_id: self.organization_id,
            action: self.action.clone(),
        }
    }
}

impl AccountType {
    /// The name of the variant.
    pub fn name(&self) -> (r: &'static str)
        ensures
            r@ == match *self {
                AccountType::LedgerAccount => "LedgerAccount"@,
                AccountType::ContactAccount { .. } => "ContactAccount"@,
                AccountType::BankAccount { .. } => "BankAccount"@,
                AccountType::BitcoinAccount { .. } => "BitcoinAccount"@,
            },
    {
        match self {
            AccountType::LedgerAccount => "LedgerAccount",
            AccountType::ContactAccount { .. } => "ContactAccount",
            AccountType::BankAccount { .. } => "BankAccount",
            AccountType::BitcoinAccount { .. } => "BitcoinAccount",
        }
    }
}

impl BalanceSheetCategory {
    /// The name of the category.
    pub fn name(&self) -> (r: &'static str)
        ensures
            r@ == match *self {
                BalanceSheetCategory::Asset => "Asset"@,
                BalanceSheetCategory::Liability => "Liability"@,
                BalanceSheetCategory::Equity => "Equity"@,
            },
    {
        match self {
            BalanceSheetCategory::Asset => "Asset",
            BalanceSheetCategory::Liability => "Liability",
            BalanceSheetCategory::Equity => "Equity",
        }
    }
}

impl IncomeStatementCategory {
    /// The name of the category.
    pub fn name(&self) -> (r: &'static str)
        ensures
            r@ == match *self {
                IncomeStatementCategory::OperatingRevenue => "OperatingRevenue"@,
                IncomeStatementCategory::OperatingExpense => "OperatingExpense"@,
                IncomeStatementCategory::NonOperatingRevenue => "NonOperatingRevenue"@,
                IncomeStatementCategory::NonOperatingExpense => "NonOperatingExpense"@,
            },
    {
        match self {
            IncomeStatementCategory::OperatingRevenue => "OperatingRevenue",
            IncomeStatementCategory::OperatingExpense => "OperatingExpense",
            IncomeStatementCategory::NonOperatingRevenue => "NonOperatingRevenue",
            IncomeStatementCategory::NonOperatingExpense => "NonOperatingExpense",
        }
    }
}

impl AccountCategory {
    /// The name of the financial statement the category belongs to.
    pub fn name(&self) -> (r: &'static str)
        ensures
            r@ == match *self {
                AccountCategory::BalanceSheet(_) => "BalanceSheet"@,
                AccountCategory::IncomeStatement(_) => "IncomeStatement"@,
            },
    {
        match self {
            AccountCategory::BalanceSheet(_) => "BalanceSheet",
            AccountCategory::IncomeStatement(_) => "IncomeStatement",
        }
    }
}

impl CurrencyCode {
    /// The currency id of the code: its ISO 4217 number, or a number above
    /// 2000 for a currency outside ISO 4217.
    pub fn id(&self) -> (r: CurrencyId)
        ensures
            *self == CurrencyCode::USD ==> r == 840,
            *self == CurrencyCode::BTC ==> r == 2009,
    {
        match self {
            CurrencyCode::USD => 840,
            CurrencyCode::BTC => 2009,
        }
    }
}

impl Organization {
    /// A new organization, with a fresh id, whose contact is `contact_id`.
    pub fn new(contact_id: &ContactId) -> (r: Organization)
        ensures
            r.contact_id == *contact_id,
    {
        Organization { id: generate_id(), contact_id: *contact_id }
    }
}

impl Contact {
    /// A new contact with a fresh id.
    pub fn new(contact_type: ContactType, name: String, address: Option<String>) -> (r: Contact)
        ensures
            r.contact_type == contact_type,
            r.name == name,
            r.address == address,
    {
        Contact { id: generate_id(), contact_type, name, address }
    }
}

impl Account {
    /// A new account with a fresh id.
    pub fn new(
        parent_id: Option<&AccountId>,
        number: AccountNumber,
        description: String,
        account_type: AccountType,
        account_category: AccountCategory,
    ) -> (r: Account)
        ensures
            r.parent_id == match parent_id {
                Some(p) => Some(*p),
                None => None::<AccountId>,
            },
            r.number == number,
            r.description == description,
            r.account_type == account_type,
            r.account_category == account_category,
    {
        let parent_id = match parent_id {
            Some(p) => Some(*p),
            None => None,
        };
        Account {
            id: generate_id(),
            parent_id,
            number,
            description,
            account_type,
            account_category,
        }
    }
}

impl Transaction {
    /// A new transaction with a fresh id.
    pub fn new(datetime: Timestamp, description: String, transaction_type: TransactionType) -> (r:
        Transaction)
        ensures
            r.datetime == datetime,
            r.description == description,
            r.transaction_type == transaction_type,
    {
        Transaction { id: generate_id(), datetime, description, transaction_type }
    }
}

impl LedgerEntry {
    pub fn new(
        transaction_id: &TransactionId,
        entry_type: EntryType,
        account_id: &AccountId,
        currency_amount: CurrencyAmount,
        description: Option<String>,
    ) -> (r: LedgerEntry)
        ensures
            r.transaction_id == *transaction_id,
            r.entry_type == entry_type,
            r.account_id == *account_id,
            r.currency_amount == currency_amount,
            r.description == description,
    {
        LedgerEntry {
            transaction_id: *transaction_id,
            entry_type,
            account_id: *account_id,
            currency_amount,
            description,
        }
    }
}

impl CurrencyAmount {
    pub fn new(currency_id: &CurrencyId, amount: Amount) -> (r: CurrencyAmount)
        ensures
            r.currency_id == *currency_id,
            r.amount == amount,
    {
        CurrencyAmount { currency_id: *currency_id, amount }
    }
}

impl JournalEntry {
    /// An entry of the current format.
    pub fn new(id: JournalEntryId, organization_id: OrganizationId, action: Action) -> (r:
        JournalEntry)
        ensures
            r.id == id,
            r.version == DEFAULT_VERSION,
            r.organization_id == organization_id,
            r.action == action,
    {
        JournalEntry { id, version: DEFAULT_VERSION, organization_id, action }
    }

    /// An entry with a freshly generated id.
    pub fn new_gen_id(organization_id: OrganizationId, action: Action) -> (r: JournalEntry)
        ensures
            r.version == DEFAULT_VERSION,
            r.organization_id == organization_id,
            r.action == action,
    {
        JournalEntry::new(generate_id(), organization_id, action)
    }

    /// An entry whose id is minted after `previous_id`, for chaining.
    pub fn new_after_id(
        previous_id: JournalEntryId,
        organization_id: OrganizationId,
        action: Action,
    ) -> (r: JournalEntry)
        ensures
            r.version == DEFAULT_VERSION,
            r.organization_id == organization_id,
            r.action == action,
    {
        JournalEntry::new(next_id_after(previous_id), organization_id, action)
    }
}

/// Why the event store failed.
#[derive(Debug, Clone, PartialEq, Eq)]
pub enum Error {
    Db(String),
    UlidDecoding(String),
    SerdeJson(String),
}

/// The ids of `s` never decrease along it.
pub open spec fn ids_ascending(s: Seq<JournalEntry>) -> bool {
    forall|i: int, j: int| 0 <= i < j < s.len() ==> s[i].id <= s[j].id
}

/// How many entries of `s` have an id not above `id`.
pub open spec fn count_not_above(s: Seq<JournalEntry>, id: JournalEntryId) -> nat
    decreases s.len(),
{
    if s.len() == 0 {
        0
    } else {
        count_not_above(s.drop_last(), id) + if s.last().id <= id { 1nat } else { 0nat }
    }
}

/// `s` with `e` placed after every entry whose id is not above its own.
pub open spec fn insert_by_id(s: Seq<JournalEntry>, e: JournalEntry) -> Seq<JournalEntry> {
    s.insert(count_not_above(s, e.id) as int, e)
}

/// In a sequence whose ids never decrease, the entries whose id is not above
/// `x` are exactly those before position `count_not_above(s, x)`.
proof fn lemma_count_not_above(s: Seq<JournalEntry>, x: JournalEntryId)
    requires
        ids_ascending(s),
    ensures
        count_not_above(s, x) <= s.len(),
        forall|j: int| 0 <= j < count_not_above(s, x) ==> s[j].id <= x,
        forall|j: int| count_not_above(s, x) <= j < s.len() ==> s[j].id > x,
    decreases s.len(),
{
    if s.len() > 0 {
        let t = s.drop_last();
        assert(ids_ascending(t)) by {
            assert forall|i: int, j: int| 0 <= i < j < t.len() implies t[i].id <= t[j].id by {
                assert(t[i] == s[i] && t[j] == s[j]);
            }
        }
        lemma_count_not_above(t, x);
        let c = count_not_above(t, x) as int;
        let n = s.len() - 1;
        assert(s.last() == s[n]);
        assert forall|j: int| 0 <= j < n implies t[j] == s[j] by {}
        if s[n].id <= x {
            if c < n {
                assert(s[c].id <= s[n].id);
            }
            assert(c == n);
        }
    }
}

/// Placing an entry by its id keeps the ids ascending.
pub proof fn lemma_insert_by_id(s: Seq<JournalEntry>, e: JournalEntry)
    requires
        ids_ascending(s),
    ensures
        ids_ascending(insert_by_id(s, e)),
        insert_by_id(s, e).len() == s.len() + 1,
{
    lemma_count_not_above(s, e.id);
    let i = count_not_above(s, e.id) as int;
    let t = s.insert(i, e);
    assert forall|a: int, b: int| 0 <= a < b < t.len() implies t[a].id <= t[b].id by {
        if b < i {
            assert(t[a] == s[a] && t[b] == s[b]);
        } else if b == i {
            assert(t[a] == s[a]);
        } else if a < i {
            assert(t[a] == s[a] && t[b] == s[b - 1]);
        } else if a == i {
            assert(t[b] == s[b - 1]);
        } else {
            assert(t[a] == s[a - 1] && t[b] == s[b - 1]);
        }
    }
}

/// A durable store of journal entries, read back ascending by id.
pub trait Db {
    /// The entries stored, ascending by id; entries of one id in the order
    /// they were added.
    spec fn entries(&self) -> Seq<JournalEntry>;

    /// Adds an entry in its place by id; on failure nothing is stored.
    fn insert_entry(&mut self, entry: JournalEntry) -> (r: Result<(), Error>)
        ensures
            r is Ok ==> final(self).entries() == insert_by_id(old(self).entries(), entry),
            r is Err ==> final(self).entries() == old(self).entries(),
    ;

    /// A copy of the entries stored, ascending by id.
    fn select_entries(&self) -> (r: Result<Vec<JournalEntry>, Error>)
        ensures
            r is Ok ==> r->Ok_0.len() == self.entries().len() && forall|i: int|
                0 <= i < self.entries().len() ==> #[trigger] r->Ok_0[i].equiv(self.entries()[i]),
            r is Ok ==> forall|i: int, j: int|
                0 <= i < j < r->Ok_0.len() ==> r->Ok_0[i].id <= r->Ok_0[j].id,
    ;
}

/// A store that keeps its entries in memory, ascending by id.
pub struct VecDb {
    db: Vec<JournalEntry>,
}

impl VecDb {
    #[verifier::type_invariant]
    spec fn inv(self) -> bool {
        ids_ascending(self.db@)
    }

    pub fn new() -> (r: VecDb)
        ensures
            r.entries() == Seq::<JournalEntry>::empty(),
    {
        VecDb { db: Vec::new() }
    }
}

impl Db for VecDb {
    closed spec fn entries(&self) -> Seq<JournalEntry> {
        self.db@
    }

    fn insert_entry(&mut self, entry: JournalEntry) -> (r: Result<(), Error>) {
        proof {
            use_type_invariant(&*self);
        }
        let mut db: Vec<JournalEntry> = Vec::new();
        std::mem::swap(&mut db, &mut self.db);
        let ghost s = db@;
        let id = entry.id;
        let mut i: usize = 0;
        while i < db.len() && db[i].id <= id
            invariant
                0 <= i <= db.len(),
                db@ == s,
                ids_ascending(s),
                forall|j: int| 0 <= j < i ==> s[j].id <= id,
            decreases db.len() - i,
        {
            i = i + 1;
        }
        proof {
            lemma_count_not_above(s, id);
            let c = count_not_above(s, id) as int;
            if i < c {
                assert(s[i as int].id <= id);
            } else if i > c {
                assert(s[c].id > id);
            }
            lemma_insert_by_id(s, entry);
        }
        db.insert(i, entry);
        self.db = db;
        Ok(())
    }

    fn select_entries(&self) -> (r: Result<Vec<JournalEntry>, Error>) {
        proof {
            use_type_invariant(&*self);
        }
        let mut r: Vec<JournalEntry> = Vec::new();
        let mut i: usize = 0;
        while i < self.db.len()
            invariant
                0 <= i <= self.db.len(),
                r.len() == i,
                forall|j: int| 0 <= j < i ==> #[trigger] r[j].equiv(self.db@[j]),
            decreases self.db.len() - i,
        {
            r.push(self.db[i].clone());
            i = i + 1;
        }
        proof {
            assert forall|a: int, b: int| 0 <= a < b < r.len() implies r[a].id <= r[b].id by {
                assert(r[a].equiv(self.db@[a]) && r[b].equiv(self.db@[b]));
            }
        }
        Ok(r)
    }
}

/// The append-only journal: a thin sequencing layer over a store.
pub struct Journal<D: Db> {
    db: D,
}

impl<D: Db> Journal<D> {
    /// The entries of the journal, ascending by id.
    pub closed spec fn entries(&self) -> Seq<JournalEntry> {
        self.db.entries()
    }

    pub fn new(db: D) -> (r: Journal<D>)
        ensures
            r.entries() == db.entries(),
    {
        Journal { db }
    }

    /// Adds an entry in its place by id. No validation happens here.
    pub fn add(&mut self, entry: JournalEntry) -> (r: Result<(), Error>)
        ensures
            r is Ok ==> final(self).entries() == insert_by_id(old(self).entries(), entry),
            r is Err ==> final(self).entries() == old(self).entries(),
    {
        self.db.insert_entry(entry)
    }

    /// All entries, ascending by id.
    pub fn view(&self) -> (r: Result<Vec<JournalEntry>, Error>)
        ensures
            r is Ok ==> r->Ok_0.len() == self.entries().len() && forall|i: int|
                0 <= i < self.entries().len() ==> #[trigger] r->Ok_0[i].equiv(self.entries()[i]),
            r is Ok ==> forall|i: int, j: int|
                0 <= i < j < r->Ok_0.len() ==> r->Ok_0[i].id <= r->Ok_0[j].id,
    {
        self.db.select_entries()
    }
}

/// A sample organization with its chart of accounts and two transactions,
/// and the journal that records them.
pub struct TestEntries {
    pub organization_contact: Contact,
    pub organization: Organization,
    pub contacts: Vec<Contact>,
    pub currencies: Vec<Currency>,
    pub accounts: Vec<Account>,
    pub transactions: Vec<(Transaction, Vec<LedgerEntry>)>,
    pub journal_entries: Vec<JournalEntry>,
}

impl TestEntries {
    /// The journal of the given values: the organization, then the contacts,
    /// currencies, accounts and transactions in order, each entry's id minted
    /// after the one before.
    fn new(
        organization_contact: Contact,
        organization: Organization,
        contacts: Vec<Contact>,
        currencies: Vec<Currency>,
        accounts: Vec<Account>,
        transactions: Vec<(Transaction, Vec<LedgerEntry>)>,
    ) -> (r: TestEntries)
        requires
            1 + contacts.len() + currencies.len() + accounts.len() + transactions.len()
                <= usize::MAX,
        ensures
            r.organization_contact == organization_contact,
            r.organization == organization,
            r.contacts@ == contacts@,
            r.currencies@ == currencies@,
            r.accounts@ == accounts@,
            r.transactions@ == transactions@,
            r.journal_entries.len() == 1 + contacts.len() + currencies.len() + accounts.len()
                + transactions.len(),
            forall|i: int|
                0 <= i < r.journal_entries.len() ==> #[trigger] r.journal_entries[i].organization_id
                    == organization.id,
            r.journal_entries[0].action == (Action::AddOrganization {
                contact: organization_contact,
                organization,
            }),
    {
        let mut journal_entries: Vec<JournalEntry> = Vec::new();
        let organization_id = organization.id;
        let action = Action::AddOrganization {
            contact: organization_contact.clone(),
            organization: organization.clone(),
        };
        TestEntries::add_journal_entry(&mut journal_entries, &organization_id, action);
        let mut i: usize = 0;
        while i < contacts.len()
            invariant
                0 <= i <= contacts.len(),
                journal_entries.len() == 1 + i,
                1 + contacts.len() + currencies.len() + accounts.len() + transactions.len()
                    <= usize::MAX,
                journal_entries[0].action == (Action::AddOrganization {
                    contact: organization_contact,
                    organization,
                }),
                forall|j: int|
                    0 <= j < journal_entries.len() ==> #[trigger] journal_entries[j].organization_id
                        == organization_id,
                organization_id == organization.id,
            decreases contacts.len() - i,
        {
            let action = Action::AddContact { contact: contacts[i].clone() };
            TestEntries::add_journal_entry(&mut journal_entries, &organization_id, action);
            i = i + 1;
        }
        let mut i: usize = 0;
        while i < currencies.len()
            invariant
                0 <= i <= currencies.len(),
                journal_entries.len() == 1 + contacts.len() + i,
                1 + contacts.len() + currencies.len() + accounts.len() + transactions.len()
                    <= usize::MAX,
                journal_entries[0].action == (Action::AddOrganization {
                    contact: organization_contact,
                    organization,
                }),
                forall|j: int|
                    0 <= j < journal_entries.len() ==> #[trigger] journal_entries[j].organization_id
                        == organization_id,
                organization_id == organization.id,
            decreases currencies.len() - i,
        {
            let action = Action::AddCurrency { currency: currencies[i].clone() };
            TestEntries::add_journal_entry(&mut journal_entries, &organization_id, action);
            i = i + 1;
        }
        let mut i: usize = 0;
        while i < accounts.len()
            invariant
                0 <= i <= accounts.len(),
                journal_entries.len() == 1 + contacts.len() + currencies.len() + i,
                1 + contacts.len() + currencies.len() + accounts.len() + transactions.len()
                    <= usize::MAX,
                journal_entries[0].action == (Action::AddOrganization {
                    contact: organization_contact,
                    organization,
                }),
                forall|j: int|
                    0 <= j < journal_entries.len() ==> #[trigger] journal_entries[j].organization_id
                        == organization_id,
                organization_id == organization.id,
            decreases accounts.len() - i,
        {
            let action = Action::AddAccount { account: accounts[i].clone() };
            TestEntries::add_journal_entry(&mut journal_entries, &organization_id, action);
            i = i + 1;
        }
        let mut i: usize = 0;
        while i < transactions.len()
            invariant
                0 <= i <= transactions.len(),
                journal_entries.len() == 1 + contacts.len() + currencies.len() + accounts.len() + i,
                1 + contacts.len() + currencies.len() + accounts.len() + transactions.len()
                    <= usize::MAX,
                journal_entries[0].action == (Action::AddOrganization {
                    contact: organization_contact,
                    organization,
                }),
                forall|j: int|
                    0 <= j < journal_entries.len() ==> #[trigger] journal_entries[j].organization_id
                        == organization_id,
                organization_id == organization.id,
            decreases transactions.len() - i,
        {
            let action = Action::AddTransaction {
                transaction: transactions[i].0.clone(),
                ledger_entries: clone_entries(&transactions[i].1),
            };
            TestEntries::add_journal_entry(&mut journal_entries, &organization_id, action);
            i = i + 1;
        }
        TestEntries {
            organization_contact,
            organization,
            contacts,
            currencies,
            accounts,
            transactions,
            journal_entries,
        }
    }

    /// Appends an entry whose id is minted after that of the last entry.
    fn add_journal_entry(
        journal_entries: &mut Vec<JournalEntry>,
        organization_id: &OrganizationId,
        action: Action,
    )
        requires
            old(journal_entries).len() < usize::MAX,
        ensures
            final(journal_entries)@ == old(journal_entries)@.push(final(journal_entries)@.last()),
            final(journal_entries)@.last().organization_id == *organization_id,
            final(journal_entries)@.last().action == action,
    {
        let previous_id = if journal_entries.len() > 0 {
            journal_entries[journal_entries.len() - 1].id
        } else {
            generate_id()
        };
        let je = JournalEntry::new_after_id(previous_id, *organization_id, action);
        journal_entries.push(je);
    }
}

/// A sample organization: two contacts, US dollars and bitcoin, nine
/// accounts under five roots (assets, liabilities, equity, revenue,
/// expenses), an owner's funding of 10,000.00 USD and a consulting income of
/// 8,000.00 USD, with the journal that records them.
pub fn test_entries() -> (r: TestEntries)
    ensures
        r.organization.contact_id == r.organization_contact.id,
        r.contacts.len() == 2,
        r.currencies.len() == 2,
        r.accounts.len() == 9,
        r.transactions.len() == 2,
        r.journal_entries.len() == 16,
        forall|i: int|
            0 <= i < r.journal_entries.len() ==> #[trigger] r.journal_entries[i].organization_id
                == r.organization.id,
{
    let organization_contact = Contact::new(
        ContactType::Organization,
        "Test Company".to_owned(),
        None,
    );
    let owner = Contact::new(ContactType::Individual, "Test Owner".to_owned(), None);
    let bank1 = Contact::new(ContactType::Organization, "Test Bank".to_owned(), None);
    let owner_id = owner.id;
    let contacts = vec![owner, bank1];

    let usd = Currency {
        id: CurrencyCode::USD.id(),
        code: "USD".to_owned(),
        scale: 2,
        name: "US Dollars".to_owned(),
    };
    let btc = Currency {
        id: CurrencyCode::BTC.id(),
        code: "BTC".to_owned(),
        scale: 8,
        name: "Bitcoin".to_owned(),
    };
    let usd_id = usd.id;
    let usd_scale = usd.scale;
    let currencies = vec![usd, btc];

    let organization = Organization::new(&organization_contact.id);

    let assets_acct = Account::new(
        None,
        100,
        "Assets".to_owned(),
        AccountType::LedgerAccount,
        AccountCategory::BalanceSheet(BalanceSheetCategory::Asset),
    );
    let liabilities_acct = Account::new(
        None,
        200,
        "Liabilities".to_owned(),
        AccountType::LedgerAccount,
        AccountCategory::BalanceSheet(BalanceSheetCategory::Liability),
    );
    let equity_acct = Account::new(
        None,
        300,
        "Equity".to_owned(),
        AccountType::LedgerAccount,
        AccountCategory::BalanceSheet(BalanceSheetCategory::Equity),
    );
    let revenue_acct = Account::new(
        None,
        400,
        "Revenue".to_owned(),
        AccountType::LedgerAccount,
        AccountCategory::IncomeStatement(IncomeStatementCategory::OperatingRevenue),
    );
    let expenses_acct = Account::new(
        None,
        500,
        "Expenses".to_owned(),
        AccountType::LedgerAccount,
        AccountCategory::IncomeStatement(IncomeStatementCategory::OperatingExpense),
    );
    let owner1_acct = Account::new(
        Some(&equity_acct.id),
        100,
        "Owner 1".to_owned(),
        AccountType::ContactAccount { contact_id: owner_id },
        AccountCategory::BalanceSheet(BalanceSheetCategory::Equity),
    );
    let bank_checking_acct = Account::new(
        Some(&assets_acct.id),
        100,
        "Bank Checking".to_owned(),
        AccountType::BankAccount { currency_id: usd_id, routing: 11111, account: 123123123123 },
        AccountCategory::BalanceSheet(BalanceSheetCategory::Asset),
    );
    let office_supp_acct = Account::new(
        Some(&expenses_acct.id),
        100,
        "Office Supplies".to_owned(),
        AccountType::LedgerAccount,
        AccountCategory::IncomeStatement(IncomeStatementCategory::OperatingExpense),
    );
    let consult_income_acct = Account::new(
        Some(&revenue_acct.id),
        100,
        "Consulting Income".to_owned(),
        AccountType::LedgerAccount,
        AccountCategory::IncomeStatement(IncomeStatementCategory::OperatingRevenue),
    );

    // 2022-01-03 09:00 UTC
    let funding_tx = Transaction::new(
        1641200400,
        "Owner's initial funding".to_owned(),
        TransactionType::Invoice {
            payment_method: PaymentMethod::Cash,
            payment_terms: PaymentTerms::ImmediatePayment,
            payments: Vec::new(),
        },
    );
    let funding_entries = vec![
        LedgerEntry::new(
            &funding_tx.id,
            EntryType::Debit,
            &bank_checking_acct.id,
            CurrencyAmount::new(&usd_id, Amount::new(10_000_00, usd_scale)),
            Some("Owner funds deposited to bank".to_owned()),
        ),
        LedgerEntry::new(
            &funding_tx.id,
            EntryType::Credit,
            &owner1_acct.id,
            CurrencyAmount::new(&usd_id, Amount::new(10_000_00, usd_scale)),
            Some("Equity credited to owner".to_owned()),
        ),
    ];

    // 2022-02-03 09:00 UTC
    let income_tx = Transaction::new(
        1643878800,
        "Consulting income".to_owned(),
        TransactionType::Invoice {
            payment_method: PaymentMethod::Check {
                contact_id: organization_contact.id,
                currency_id: CurrencyCode::USD.id(),
            },
            payment_terms: PaymentTerms::ImmediatePayment,
            payments: Vec::new(),
        },
    );
    let income_entries = vec![
        LedgerEntry::new(
            &income_tx.id,
            EntryType::Debit,
            &bank_checking_acct.id,
            CurrencyAmount::new(&usd_id, Amount::new(8_000_00, usd_scale)),
            Some("Consulting fee deposit".to_owned()),
        ),
        LedgerEntry::new(
            &income_tx.id,
            EntryType::Credit,
            &consult_income_acct.id,
            CurrencyAmount::new(&usd_id, Amount::new(8_000_00, usd_scale)),
            Some("Consulting services".to_owned()),
        ),
    ];

    let accounts = vec![
        assets_acct,
        liabilities_acct,
        equity_acct,
        revenue_acct,
        expenses_acct,
        owner1_acct,
        bank_checking_acct,
        office_supp_acct,
        consult_income_acct,
    ];
    let transactions = vec![(funding_tx, funding_entries), (income_tx, income_entries)];

    TestEntries::new(organization_contact, organization, contacts, currencies, accounts, transactions)
}

} // verus!
