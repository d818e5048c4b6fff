use aba::decimal::Amount;
use aba::journal::{
    test_entries, Account, AccountCategory, AccountType, Action, BalanceSheetCategory, Contact,
    ContactType, Currency, CurrencyAmount, EntryType, IncomeStatementCategory, JournalEntry,
    LedgerEntry, Organization, Transaction, TransactionType,
};
use aba::ledger::{Error, Ledger};
use aba::organizations::OrganizationLedgers;


fn generate_id() -> u128 {
    u128::from(rusty_ulid::Ulid::generate())
}

fn loaded() -> (OrganizationLedgers, aba::journal::TestEntries) {
    let test_entries = test_entries();
    let mut organization_ledgers = OrganizationLedgers::new();
    let entries: Vec<JournalEntry> = test_entries.journal_entries.clone();
    organization_ledgers
        .add_journal_entries(entries)
        .expect("load journal");
    (organization_ledgers, test_entries)
}

fn account(parent: Option<&u128>, number: u32, description: &str) -> Account {
    Account::new(
        parent,
        number,
        description.to_string(),
        AccountType::LedgerAccount,
        AccountCategory::BalanceSheet(BalanceSheetCategory::Asset),
    )
}

#[test]
fn mod_test_new_get() {
    let (organization_ledgers, test_entries) = loaded();
    let organization_id = test_entries.organization.id;
    let ledger = organization_ledgers
        .get_ledger(&organization_id)
        .expect("ledger");
    assert_eq!(ledger.accounts().len(), test_entries.accounts.len());
    assert_eq!(ledger.currencies().len(), test_entries.currencies.len());
    assert_eq!(ledger.transactions().len(), test_entries.transactions.len());

    let transaction1 = *ledger.transactions().first().expect("transaction");

    let with_entries: Vec<&Vec<LedgerEntry>> = ledger
        .transactions()
        .iter()
        .filter_map(|t| ledger.get_transaction_entries(&t.id))
        .collect();
    assert_eq!(with_entries.len(), test_entries.transactions.len());
    assert_eq!(ledger.transactions().len(), test_entries.transactions.len());

    let account_lists: Vec<&Vec<LedgerEntry>> = ledger
        .accounts()
        .iter()
        .filter_map(|a| ledger.get_account_entries(&a.id))
        .collect();
    assert_eq!(account_lists.len(), 3);
    assert_eq!(with_entries.len(), 2);

    let account_entries_values_len: usize = account_lists.iter().map(|v| v.len()).sum();
    assert_eq!(account_entries_values_len, 4);
    let transaction_entries_values_len: usize = with_entries.iter().map(|v| v.len()).sum();
    assert_eq!(transaction_entries_values_len, 4);

    let transaction1_entries = ledger
        .get_transaction_entries(&transaction1.id)
        .expect("transaction1 entries");
    let credits = transaction1_entries
        .iter()
        .filter(|e| e.entry_type == EntryType::Credit)
        .count();
    assert_eq!(credits, 1);
    let debits = transaction1_entries
        .iter()
        .filter(|e| e.entry_type == EntryType::Debit)
        .count();
    assert_eq!(debits, 1);
}

#[test]
fn mod_test_get_parent() {
    let (organization_ledgers, test_entries) = loaded();
    let ledger = organization_ledgers
        .get_ledger(&test_entries.organization.id)
        .expect("ledger");
    for account in &test_entries.accounts {
        let parent = ledger.parent(account).unwrap();
        match account.parent_id {
            None => assert!(parent.is_none()),
            Some(p) => assert_eq!(parent.unwrap().id, p),
        }
    }
}

#[test]
fn mod_test_get_full_number() {
    let (organization_ledgers, test_entries) = loaded();
    let ledger = organization_ledgers
        .get_ledger(&test_entries.organization.id)
        .expect("ledger");
    for account in &test_entries.accounts {
        let number = ledger.full_number(account).unwrap();
        match account.parent_id {
            None => assert_eq!(number, vec![account.number]),
            Some(_) => {
                assert_eq!(number.len(), 2);
                assert_eq!(number[1], account.number);
            }
        }
    }
}

#[test]
fn mod_test_get_children() {
    let (organization_ledgers, test_entries) = loaded();
    let ledger = organization_ledgers
        .get_ledger(&test_entries.organization.id)
        .expect("ledger");
    for account in &test_entries.accounts {
        let children = ledger.children(&account.id);
        let expected = test_entries
            .accounts
            .iter()
            .filter(|a| a.parent_id == Some(account.id))
            .count();
        assert_eq!(children.len(), expected);
        for child in children {
            assert_eq!(child.parent_id, Some(account.id));
        }
    }
}

#[test]
fn mod_test_get_child_ids() {
    let (organization_ledgers, test_entries) = loaded();
    let ledger = organization_ledgers
        .get_ledger(&test_entries.organization.id)
        .expect("ledger");
    for account in &test_entries.accounts {
        let ids = ledger.child_ids(account);
        let mut expected: Vec<u128> = test_entries
            .accounts
            .iter()
            .filter(|a| a.parent_id == Some(account.id))
            .map(|a| a.id)
            .collect();
        expected.sort();
        assert_eq!(ids, expected);
    }
}

#[test]
fn mod_test_invalid_account() {
    let organization_contact = Contact::new(ContactType::Individual, "test".to_string(), None);
    let organization = Organization::new(&organization_contact.id);
    let organization_id = organization.id;
    let mut organization_ledgers = OrganizationLedgers::new();
    organization_ledgers
        .add_journal_entry(JournalEntry::new_gen_id(
            organization.id,
            Action::AddOrganization {
                contact: organization_contact,
                organization,
            },
        ))
        .expect("Add organization");
    let missing_contact = generate_id();
    let test_account = Account {
        id: generate_id(),
        parent_id: Some(generate_id()),
        number: 10,
        description: "Invalid".to_string(),
        account_type: AccountType::ContactAccount {
            contact_id: missing_contact,
        },
        account_category: AccountCategory::BalanceSheet(BalanceSheetCategory::Equity),
    };
    let result = organization_ledgers.add_journal_entry(JournalEntry {
        id: generate_id(),
        version: 0,
        organization_id,
        action: Action::AddAccount {
            account: test_account,
        },
    });
    assert_eq!(result, Err(Error::MissingContact(missing_contact)));
    let ledger = organization_ledgers.get_ledger(&organization_id).unwrap();
    assert_eq!(ledger.accounts().len(), 0);
}

#[test]
fn full_number_of_chain_lists_root_first() {
    let mut ledger = Ledger::new();
    let root = account(None, 10, "root");
    let a = account(Some(&root.id), 100, "a");
    let b = account(Some(&a.id), 200, "b");
    let c = account(Some(&b.id), 300, "c");
    let c_copy = c.clone();
    for acct in [root, a, b, c] {
        ledger.add_account(acct).unwrap();
    }
    assert_eq!(ledger.full_number(&c_copy).unwrap(), vec![10, 100, 200, 300]);
}

#[test]
fn full_number_reports_missing_parent() {
    let ledger = Ledger::new();
    let parent = generate_id();
    let orphan = account(Some(&parent), 5, "orphan");
    assert_eq!(ledger.full_number(&orphan), Err(Error::MissingAccount(parent)));
    assert_eq!(ledger.parent(&orphan), Err(Error::MissingAccount(parent)));
}

#[test]
fn full_number_stops_on_a_cycle() {
    let mut ledger = Ledger::new();
    let a_id = generate_id();
    let b_id = generate_id();
    let a = Account {
        id: a_id,
        parent_id: Some(b_id),
        number: 1,
        description: "a".to_string(),
        account_type: AccountType::LedgerAccount,
        account_category: AccountCategory::BalanceSheet(BalanceSheetCategory::Asset),
    };
    let b = Account {
        id: b_id,
        parent_id: Some(a_id),
        number: 2,
        description: "b".to_string(),
        account_type: AccountType::LedgerAccount,
        account_category: AccountCategory::BalanceSheet(BalanceSheetCategory::Asset),
    };
    let a_copy = a.clone();
    ledger.add_account(a).unwrap();
    ledger.add_account(b).unwrap();
    assert!(matches!(ledger.full_number(&a_copy), Err(Error::AccountCycle(_))));
}

#[test]
fn missing_currency_is_refused_and_ledger_unchanged() {
    let mut ledger = Ledger::new();
    let bank = Account::new(
        None,
        100,
        "Bank".to_string(),
        AccountType::BankAccount {
            currency_id: 840,
            routing: 1,
            account: 2,
        },
        AccountCategory::BalanceSheet(BalanceSheetCategory::Asset),
    );
    let bank_id = bank.id;
    assert_eq!(ledger.add_account(bank), Err(Error::MissingCurrency(840)));
    assert!(ledger.get_account(&bank_id).is_none());
    assert_eq!(ledger.accounts().len(), 0);
    assert_eq!(ledger.account_type_valid(&AccountType::LedgerAccount), Ok(()));
}

#[test]
fn duplicate_ids_are_conflicts() {
    let mut ledger = Ledger::new();
    let first = account(None, 1, "first");
    let mut second = account(None, 2, "second");
    second.id = first.id;
    let id = first.id;
    ledger.add_account(first).unwrap();
    assert_eq!(ledger.add_account(second), Err(Error::AccountExists(id)));
    assert_eq!(ledger.get_account(&id).unwrap().description, "first");

    let usd = Currency {
        id: 840,
        code: "USD".to_string(),
        scale: 2,
        name: "US Dollars".to_string(),
    };
    let mut usd2 = usd.clone();
    usd2.name = "Other".to_string();
    ledger.add_currency(usd).unwrap();
    assert_eq!(ledger.add_currency(usd2), Err(Error::CurrencyExists(840)));
    assert_eq!(ledger.get_currency(&840).unwrap().name, "US Dollars");
    assert_eq!(ledger.currency_exists(&840), Ok(()));
    assert_eq!(ledger.currency_exists(&978), Err(Error::MissingCurrency(978)));

    let contact = Contact::new(ContactType::Individual, "One".to_string(), None);
    let mut contact2 = contact.clone();
    contact2.name = "Two".to_string();
    let cid = contact.id;
    ledger.add_contact(contact).unwrap();
    assert_eq!(ledger.add_contact(contact2), Err(Error::ContactExists(cid)));
    assert_eq!(ledger.get_contact(&cid).unwrap().name, "One");
    assert_eq!(ledger.contact_exists(&cid), Ok(()));

    let tx = Transaction::new(0, "one".to_string(), TransactionType::LedgerAdjustment);
    let mut tx2 = tx.clone();
    tx2.description = "two".to_string();
    let tid = tx.id;
    ledger.add_transaction(tx).unwrap();
    assert_eq!(ledger.add_transaction(tx2), Err(Error::TransactionExists(tid)));
    assert_eq!(ledger.get_transaction(&tid).unwrap().description, "one");
    assert_eq!(ledger.transaction_exists(&tid), Ok(()));
    assert_eq!(ledger.account_exists(&id), Ok(()));
    let unknown = generate_id();
    assert_eq!(
        ledger.transaction_exists(&unknown),
        Err(Error::MissingTransaction(unknown))
    );
    assert_eq!(ledger.account_exists(&unknown), Err(Error::MissingAccount(unknown)));
    assert_eq!(ledger.contact_exists(&unknown), Err(Error::MissingContact(unknown)));

    ledger.add_ledger_entries(tid, Vec::new()).unwrap();
    assert_eq!(
        ledger.add_ledger_entries(tid, Vec::new()),
        Err(Error::LedgerEntriesExists(tid))
    );
}

#[test]
fn account_entries_keep_arrival_order() {
    let mut ledger = Ledger::new();
    let a = account(None, 1, "a");
    let aid = a.id;
    ledger.add_account(a).unwrap();
    let tid = generate_id();
    let legs = vec![
        LedgerEntry::new(&tid, EntryType::Debit, &aid, CurrencyAmount::new(&840, Amount::new(1, 2)), None),
        LedgerEntry::new(&tid, EntryType::Credit, &aid, CurrencyAmount::new(&840, Amount::new(2, 2)), None),
    ];
    ledger.add_account_entries(&legs);
    let stored = ledger.get_account_entries(&aid).unwrap();
    assert_eq!(stored, &legs);
}

#[test]
fn enumerations_are_ascending_by_id() {
    let (organization_ledgers, test_entries) = loaded();
    let ledger = organization_ledgers
        .get_ledger(&test_entries.organization.id)
        .expect("ledger");
    let ids: Vec<u128> = ledger.accounts().iter().map(|a| a.id).collect();
    let mut sorted = ids.clone();
    sorted.sort();
    assert_eq!(ids, sorted);
    let currencies: Vec<u32> = ledger.currencies().iter().map(|c| c.id).collect();
    assert_eq!(currencies, vec![840, 2009]);
    assert_eq!(ledger.contacts().len(), 3);
    assert_eq!(ledger.account_count(), 9);
}

#[test]
fn root_account_is_found_by_category() {
    let (organization_ledgers, test_entries) = loaded();
    let ledger = organization_ledgers
        .get_ledger(&test_entries.organization.id)
        .expect("ledger");
    let assets = ledger
        .get_root_account(AccountCategory::BalanceSheet(BalanceSheetCategory::Asset))
        .unwrap();
    assert_eq!(ledger.get_account(&assets).unwrap().description, "Assets");
    let empty = Ledger::new();
    assert_eq!(
        empty.get_root_account(AccountCategory::IncomeStatement(
            IncomeStatementCategory::NonOperatingRevenue
        )),
        None
    );
}
