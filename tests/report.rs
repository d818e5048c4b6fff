use aba::decimal::Amount;
use aba::journal::{
    test_entries, Account, AccountCategory, AccountType, BalanceSheetCategory, Contact,
    ContactType, Currency, CurrencyAmount, EntryType, IncomeStatementCategory, LedgerEntry,
    Transaction, TransactionType,
};
use aba::ledger::Ledger;
use aba::organizations::OrganizationLedgers;
use aba::report::{AccountTotals, Report};

fn now() -> i64 {
    time::OffsetDateTime::now_utc().unix_timestamp()
}

fn total(list: &[CurrencyAmount], currency: u32) -> Option<Amount> {
    list.iter()
        .find(|ca| ca.currency_id == currency)
        .map(|ca| ca.amount)
}

fn leg(tid: u128, entry_type: EntryType, account: u128, currency: u32, amount: Amount) -> LedgerEntry {
    LedgerEntry::new(&tid, entry_type, &account, CurrencyAmount::new(&currency, amount), None)
}

fn post(ledger: &mut Ledger, legs: Vec<LedgerEntry>) {
    let tx = Transaction::new(0, "tx".to_string(), TransactionType::LedgerAdjustment);
    let tid = tx.id;
    let legs: Vec<LedgerEntry> = legs
        .into_iter()
        .map(|mut l| {
            l.transaction_id = tid;
            l
        })
        .collect();
    ledger.add_transaction(tx).unwrap();
    ledger.add_account_entries(&legs);
    ledger.add_ledger_entries(tid, legs).unwrap();
}

fn plain(parent: Option<&u128>, number: u32, description: &str, category: AccountCategory) -> Account {
    Account::new(parent, number, description.to_string(), AccountType::LedgerAccount, category)
}

#[test]
fn test_balance_sheet() {
    let test_entries = test_entries();
    let organization_id = test_entries.organization.id;
    let mut organization_ledgers = OrganizationLedgers::new();
    organization_ledgers
        .add_journal_entries(test_entries.journal_entries)
        .expect("load journal");
    let ledger = organization_ledgers
        .get_ledger(&organization_id)
        .expect("ledger");

    let asset_account_id = ledger
        .get_root_account(AccountCategory::BalanceSheet(BalanceSheetCategory::Asset))
        .expect("Asset account");
    let liability_account_id = ledger
        .get_root_account(AccountCategory::BalanceSheet(BalanceSheetCategory::Liability))
        .expect("Liability account");
    let equity_account_id = ledger
        .get_root_account(AccountCategory::BalanceSheet(BalanceSheetCategory::Equity))
        .expect("Equity account");
    let report = Report::new(
        ledger,
        now(),
        vec![asset_account_id, liability_account_id, equity_account_id],
    )
    .expect("report");

    let account0_debits0_amount = report
        .account_totals
        .iter()
        .find(|totals| totals.account.description == "Assets")
        .expect("assets account")
        .debit_totals
        .iter()
        .find(|currency_amount| currency_amount.currency_id == 840)
        .expect("debits 0")
        .amount;
    assert_eq!(Amount::new(18_000_00, 2), account0_debits0_amount);

    let account2_credits0_amount = report
        .account_totals
        .iter()
        .find(|totals| totals.account.description == "Equity")
        .expect("equity account")
        .credit_totals
        .iter()
        .find(|currency_amount| currency_amount.currency_id == 840)
        .expect("credits 0")
        .amount;
    assert_eq!(Amount::new(10_000_00, 2), account2_credits0_amount);
}

#[test]
fn test_income_statement() {
    let test_entries = test_entries();
    let organization_id = test_entries.organization.id;
    let mut organization_ledgers = OrganizationLedgers::new();
    organization_ledgers
        .add_journal_entries(test_entries.journal_entries)
        .expect("load journal");
    let ledger = organization_ledgers
        .get_ledger(&organization_id)
        .expect("ledger");

    let revenue_account_id = ledger
        .get_root_account(AccountCategory::IncomeStatement(
            IncomeStatementCategory::OperatingRevenue,
        ))
        .expect("Revenue account");
    let expense_account_id = ledger
        .get_root_account(AccountCategory::IncomeStatement(
            IncomeStatementCategory::OperatingExpense,
        ))
        .expect("Expense account");

    let report = Report::new(ledger, now(), vec![revenue_account_id, expense_account_id])
        .expect("report");

    let account0_credits0_amount = report
        .account_totals
        .iter()
        .find(|totals| totals.account.description == "Revenue")
        .expect("revenue account")
        .credit_totals
        .iter()
        .find(|currency_amount| currency_amount.currency_id == 840)
        .expect("credits 0")
        .amount;
    assert_eq!(Amount::new(8_000_00, 2), account0_credits0_amount);
}

#[test]
fn report_aggregates_up_the_hierarchy() {
    let mut ledger = Ledger::new();
    let usd = Currency {
        id: 840,
        code: "USD".to_string(),
        scale: 2,
        name: "US Dollars".to_string(),
    };
    ledger.add_currency(usd).unwrap();
    let owner = Contact::new(ContactType::Individual, "Owner".to_string(), None);
    let owner_id = owner.id;
    ledger.add_contact(owner).unwrap();

    let asset = AccountCategory::BalanceSheet(BalanceSheetCategory::Asset);
    let equity = AccountCategory::BalanceSheet(BalanceSheetCategory::Equity);
    let revenue = AccountCategory::IncomeStatement(IncomeStatementCategory::OperatingRevenue);
    let assets = plain(None, 100, "Assets", asset);
    let bank = Account::new(
        Some(&assets.id),
        100,
        "Bank Checking".to_string(),
        AccountType::BankAccount {
            currency_id: 840,
            routing: 11111,
            account: 123123123123,
        },
        asset,
    );
    let equity_root = plain(None, 300, "Equity", equity);
    let owner_acct = Account::new(
        Some(&equity_root.id),
        100,
        "Owner".to_string(),
        AccountType::ContactAccount { contact_id: owner_id },
        equity,
    );
    let revenue_root = plain(None, 400, "Revenue", revenue);
    let consulting = plain(Some(&revenue_root.id), 100, "Consulting", revenue);
    let (assets_id, bank_id, equity_id, owner_acct_id, revenue_id, consulting_id) = (
        assets.id,
        bank.id,
        equity_root.id,
        owner_acct.id,
        revenue_root.id,
        consulting.id,
    );
    for a in [assets, bank, equity_root, owner_acct, revenue_root, consulting] {
        ledger.add_account(a).unwrap();
    }

    post(
        &mut ledger,
        vec![
            leg(0, EntryType::Debit, bank_id, 840, Amount::new(10_000_00, 2)),
            leg(0, EntryType::Credit, owner_acct_id, 840, Amount::new(10_000_00, 2)),
        ],
    );
    let before = Report::new(&ledger, 0, vec![assets_id, equity_id]).unwrap();
    assert_eq!(total(&before.account_totals[0].debit_totals, 840), Some(Amount::new(10_000_00, 2)));
    assert_eq!(total(&before.account_totals[1].credit_totals, 840), Some(Amount::new(10_000_00, 2)));
    assert!(before.account_totals[0].credit_totals.is_empty());
    assert!(before.account_totals[1].debit_totals.is_empty());

    post(
        &mut ledger,
        vec![leg(0, EntryType::Credit, consulting_id, 840, Amount::new(8_000_00, 2))],
    );
    let after = Report::new(&ledger, 0, vec![assets_id, equity_id, revenue_id]).unwrap();
    assert_eq!(after.account_totals[0].debit_totals, before.account_totals[0].debit_totals);
    assert_eq!(after.account_totals[1].credit_totals, before.account_totals[1].credit_totals);
    assert_eq!(total(&after.account_totals[2].credit_totals, 840), Some(Amount::new(8_000_00, 2)));
    let child = &after.account_totals[2].child_account_totals[0];
    assert_eq!(child.account.id, consulting_id);
    assert_eq!(total(&child.credit_totals, 840), Some(Amount::new(8_000_00, 2)));
}

#[test]
fn currencies_are_totalled_apart() {
    let mut ledger = Ledger::new();
    let cash = plain(None, 1, "Cash", AccountCategory::BalanceSheet(BalanceSheetCategory::Asset));
    let cash_copy = cash.clone();
    let id = cash.id;
    ledger.add_account(cash).unwrap();
    post(
        &mut ledger,
        vec![
            leg(0, EntryType::Debit, id, 840, Amount::new(150, 2)),
            leg(0, EntryType::Debit, id, 2009, Amount::new(25_000_000, 8)),
        ],
    );
    let totals = AccountTotals::new(&ledger, &cash_copy).unwrap();
    assert_eq!(
        totals.debit_totals,
        vec![
            CurrencyAmount::new(&840, Amount::new(150, 2)),
            CurrencyAmount::new(&2009, Amount::new(25_000_000, 8)),
        ]
    );
    assert!(totals.credit_totals.is_empty());
}

#[test]
fn sums_of_one_currency_are_exact() {
    let mut ledger = Ledger::new();
    let root = plain(None, 1, "Root", AccountCategory::BalanceSheet(BalanceSheetCategory::Asset));
    let child = plain(Some(&root.id), 2, "Child", AccountCategory::BalanceSheet(BalanceSheetCategory::Asset));
    let root_copy = root.clone();
    let (root_id, child_id) = (root.id, child.id);
    ledger.add_account(root).unwrap();
    ledger.add_account(child).unwrap();
    post(
        &mut ledger,
        vec![
            leg(0, EntryType::Credit, root_id, 840, Amount::new(15, 1)),
            leg(0, EntryType::Credit, root_id, 840, Amount::new(25, 2)),
            leg(0, EntryType::Credit, child_id, 840, Amount::new(100, 2)),
        ],
    );
    let totals = AccountTotals::new(&ledger, &root_copy).unwrap();
    assert_eq!(total(&totals.credit_totals, 840), Some(Amount::new(275, 2)));
    assert_eq!(total(&totals.child_account_totals[0].credit_totals, 840), Some(Amount::new(100, 2)));
}

#[test]
fn overflowing_totals_give_none() {
    let mut ledger = Ledger::new();
    let a = plain(None, 1, "A", AccountCategory::BalanceSheet(BalanceSheetCategory::Asset));
    let a_copy = a.clone();
    let id = a.id;
    ledger.add_account(a).unwrap();
    let big = Amount::from_parts(aba::decimal::MAX_MANTISSA, 0).unwrap();
    post(
        &mut ledger,
        vec![
            leg(0, EntryType::Debit, id, 840, big),
            leg(0, EntryType::Debit, id, 840, big),
        ],
    );
    assert!(AccountTotals::new(&ledger, &a_copy).is_none());
    assert!(Report::new(&ledger, 0, vec![id]).is_none());
    assert!(Amount::from_parts(aba::decimal::MAX_MANTISSA + 1, 0).is_none());
}
