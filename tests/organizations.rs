use aba::decimal::Amount;
use aba::journal::{
    test_entries, Account, AccountCategory, AccountType, Action, BalanceSheetCategory, Contact,
    ContactType, Currency, CurrencyAmount, EntryType, JournalEntry, LedgerEntry, Organization,
    Transaction, TransactionType,
};
use aba::ledger::Error;
use aba::organizations::OrganizationLedgers;


fn generate_id() -> u128 {
    u128::from(rusty_ulid::Ulid::generate())
}

fn next_id_after(previous: u128) -> u128 {
    u128::from(rusty_ulid::Ulid::next_monotonic(rusty_ulid::Ulid::from(previous)))
}

fn organization_entry() -> (u128, JournalEntry) {
    let contact = Contact::new(ContactType::Organization, "Org".to_string(), None);
    let organization = Organization::new(&contact.id);
    let id = organization.id;
    (
        id,
        JournalEntry::new_gen_id(
            id,
            Action::AddOrganization {
                contact,
                organization,
            },
        ),
    )
}

fn ledger_account(id: u128, number: u32) -> Account {
    Account {
        id,
        parent_id: None,
        number,
        description: "Cash".to_string(),
        account_type: AccountType::LedgerAccount,
        account_category: AccountCategory::BalanceSheet(BalanceSheetCategory::Asset),
    }
}

#[test]
fn replay_gives_identical_ledgers() {
    let t = test_entries();
    let mut first = OrganizationLedgers::new();
    let mut second = OrganizationLedgers::new();
    first.add_journal_entries(t.journal_entries.clone()).unwrap();
    second.add_journal_entries(t.journal_entries.clone()).unwrap();
    let a = first.get_ledger(&t.organization.id).unwrap();
    let b = second.get_ledger(&t.organization.id).unwrap();
    assert_eq!(a.accounts(), b.accounts());
    assert_eq!(a.currencies(), b.currencies());
    assert_eq!(a.contacts(), b.contacts());
    assert_eq!(a.transactions(), b.transactions());
    for acct in a.accounts() {
        assert_eq!(a.get_account_entries(&acct.id), b.get_account_entries(&acct.id));
    }
    for tx in a.transactions() {
        assert_eq!(a.get_transaction_entries(&tx.id), b.get_transaction_entries(&tx.id));
    }
}

#[test]
fn unknown_organization_is_refused() {
    let mut ledgers = OrganizationLedgers::new();
    let org = generate_id();
    let currency = Currency {
        id: 840,
        code: "USD".to_string(),
        scale: 2,
        name: "US Dollars".to_string(),
    };
    let r = ledgers.add_journal_entry(JournalEntry::new_gen_id(
        org,
        Action::AddCurrency { currency },
    ));
    assert_eq!(r, Err(Error::MissingOrganization(org)));
    assert!(!ledgers.organization_exists(&org));
    assert!(matches!(ledgers.get_ledger(&org), Err(Error::MissingOrganization(_))));
    let tx = Transaction::new(0, "t".to_string(), TransactionType::LedgerAdjustment);
    let r = ledgers.add_journal_entry(JournalEntry::new_gen_id(
        org,
        Action::AddTransaction {
            transaction: tx,
            ledger_entries: Vec::new(),
        },
    ));
    assert_eq!(r, Err(Error::MissingOrganization(org)));
}

#[test]
fn organization_added_twice_is_a_conflict() {
    let (id, entry) = organization_entry();
    let again = entry.clone();
    let mut ledgers = OrganizationLedgers::new();
    ledgers.add_journal_entry(entry).unwrap();
    assert!(ledgers.organization_exists(&id));
    assert_eq!(ledgers.get_ledger(&id).unwrap().contacts().len(), 1);
    assert_eq!(ledgers.add_journal_entry(again), Err(Error::OrganizationExists(id)));
}

#[test]
fn tenants_are_isolated() {
    let (org_a, entry_a) = organization_entry();
    let (org_b, entry_b) = organization_entry();
    let mut ledgers = OrganizationLedgers::new();
    ledgers.add_journal_entry(entry_a).unwrap();
    ledgers.add_journal_entry(entry_b).unwrap();
    let shared_id = generate_id();
    ledgers
        .add_journal_entry(JournalEntry::new_gen_id(
            org_a,
            Action::AddAccount {
                account: ledger_account(shared_id, 100),
            },
        ))
        .unwrap();
    ledgers
        .add_journal_entry(JournalEntry::new_gen_id(
            org_b,
            Action::AddAccount {
                account: ledger_account(shared_id, 100),
            },
        ))
        .unwrap();
    let tid = generate_id();
    let tx = Transaction {
        id: tid,
        datetime: 0,
        description: "deposit".to_string(),
        transaction_type: TransactionType::LedgerAdjustment,
    };
    let leg = LedgerEntry::new(
        &tid,
        EntryType::Debit,
        &shared_id,
        CurrencyAmount::new(&840, Amount::new(500, 2)),
        None,
    );
    ledgers
        .add_journal_entry(JournalEntry::new_gen_id(
            org_a,
            Action::AddTransaction {
                transaction: tx,
                ledger_entries: vec![leg],
            },
        ))
        .unwrap();
    let a = ledgers.get_ledger(&org_a).unwrap();
    let b = ledgers.get_ledger(&org_b).unwrap();
    assert_eq!(a.get_account_entries(&shared_id).unwrap().len(), 1);
    assert!(b.get_account_entries(&shared_id).is_none());
    assert_eq!(b.transactions().len(), 0);
    assert_eq!(a.transactions().len(), 1);
}

#[test]
fn batch_stops_at_first_error_and_keeps_earlier_entries() {
    let (org, entry) = organization_entry();
    let account_id = generate_id();
    let add_account = JournalEntry::new_after_id(
        entry.id,
        org,
        Action::AddAccount {
            account: ledger_account(account_id, 1),
        },
    );
    let duplicate = JournalEntry::new_after_id(
        next_id_after(add_account.id),
        org,
        Action::AddAccount {
            account: ledger_account(account_id, 2),
        },
    );
    let later = JournalEntry::new_gen_id(
        org,
        Action::AddAccount {
            account: ledger_account(generate_id(), 3),
        },
    );
    let mut ledgers = OrganizationLedgers::new();
    let r = ledgers.add_journal_entries(vec![entry, add_account, duplicate, later]);
    assert_eq!(r, Err(Error::AccountExists(account_id)));
    let ledger = ledgers.get_ledger(&org).unwrap();
    assert_eq!(ledger.accounts().len(), 1);
    assert_eq!(ledger.get_account(&account_id).unwrap().number, 1);
}

#[test]
fn transaction_naming_unknown_account_is_refused() {
    let (org, entry) = organization_entry();
    let mut ledgers = OrganizationLedgers::new();
    ledgers.add_journal_entry(entry).unwrap();
    let known = generate_id();
    ledgers
        .add_journal_entry(JournalEntry::new_gen_id(
            org,
            Action::AddAccount {
                account: ledger_account(known, 1),
            },
        ))
        .unwrap();
    let unknown = generate_id();
    let tx = Transaction::new(0, "t".to_string(), TransactionType::LedgerAdjustment);
    let tid = tx.id;
    let legs = vec![
        LedgerEntry::new(&tid, EntryType::Debit, &known, CurrencyAmount::new(&840, Amount::new(1, 0)), None),
        LedgerEntry::new(&tid, EntryType::Credit, &unknown, CurrencyAmount::new(&840, Amount::new(1, 0)), None),
    ];
    let r = ledgers.add_journal_entry(JournalEntry::new_gen_id(
        org,
        Action::AddTransaction {
            transaction: tx,
            ledger_entries: legs,
        },
    ));
    assert_eq!(r, Err(Error::MissingAccount(unknown)));
    let ledger = ledgers.get_ledger(&org).unwrap();
    assert!(ledger.get_transaction(&tid).is_none());
    assert!(ledger.get_account_entries(&known).is_none());
}
