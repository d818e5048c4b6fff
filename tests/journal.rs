use aba::journal::{
    test_entries, AccountCategory, AccountType, BalanceSheetCategory, Db, IncomeStatementCategory,
    Journal, JournalEntry, VecDb,
};

#[test]
fn test_add_view() {
    let db = VecDb::new();
    let mut journal = Journal::new(db);
    let test_entries = test_entries();
    for entry in &test_entries.journal_entries {
        journal.add(entry.clone()).unwrap();
    }
    let journal_view = journal.view().unwrap();
    let test_journal: Vec<JournalEntry> = test_entries.journal_entries;
    assert_eq!(journal_view.len(), test_journal.len());
    for index in 0..test_journal.len() {
        assert_eq!(
            &journal_view.get(index).unwrap(),
            &test_journal.get(index).unwrap()
        );
    }
}

#[test]
fn vec_db_returns_entries_ascending_by_id() {
    let mut db = VecDb::new();
    let entries = test_entries().journal_entries;
    for entry in entries.iter().rev() {
        db.insert_entry(entry.clone()).unwrap();
    }
    let selected = db.select_entries().unwrap();
    let mut expected = entries.clone();
    expected.sort_by_key(|e| e.id);
    assert_eq!(selected, expected);
    for pair in selected.windows(2) {
        assert!(pair[0].id <= pair[1].id);
    }
}

#[test]
fn vec_db_keeps_entries_of_one_id_in_order_added() {
    let mut db = VecDb::new();
    let mut entries = test_entries().journal_entries;
    let first_id = entries[0].id;
    for e in entries.iter_mut() {
        e.id = first_id;
    }
    for entry in &entries {
        db.insert_entry(entry.clone()).unwrap();
    }
    assert_eq!(db.select_entries().unwrap(), entries);
}

#[test]
fn sample_journal_is_chained_and_shaped() {
    let t = test_entries();
    assert_eq!(t.journal_entries.len(), 16);
    assert_eq!(t.accounts.len(), 9);
    assert_eq!(t.organization.contact_id, t.organization_contact.id);
    for e in &t.journal_entries {
        assert_eq!(e.organization_id, t.organization.id);
        assert_eq!(e.version, aba::journal::DEFAULT_VERSION);
    }
}

#[test]
fn currency_codes_have_their_ids() {
    assert_eq!(aba::journal::CurrencyCode::USD.id(), 840);
    assert_eq!(aba::journal::CurrencyCode::BTC.id(), 2009);
}

#[test]
fn names_of_types_and_categories() {
    assert_eq!(AccountType::LedgerAccount.name(), "LedgerAccount");
    assert_eq!(
        AccountType::BankAccount { currency_id: 840, routing: 1, account: 2 }.name(),
        "BankAccount"
    );
    assert_eq!(BalanceSheetCategory::Liability.name(), "Liability");
    assert_eq!(IncomeStatementCategory::NonOperatingExpense.name(), "NonOperatingExpense");
    assert_eq!(
        AccountCategory::IncomeStatement(IncomeStatementCategory::OperatingRevenue).name(),
        "IncomeStatement"
    );
}
