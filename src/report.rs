//! Financial statements: debit and credit totals per currency, summed up the
//! account hierarchy.
use vstd::prelude::*;
use crate::decimal::{checked_add, decimal_sum};
use crate::journal::{
    Account, AccountId, CurrencyAmount, CurrencyId, EntryType, LedgerEntry, Timestamp,
};
use crate::ledger::{append_account_entries, Ledger, LedgerModel};

verus! {

/// Totals per currency, each as the mantissa and scale of its sum.
pub type TotalsModel = Map<CurrencyId, (int, int)>;

/// A list of totals names each currency once, in ascending order.
pub open spec fn ascending_currencies(s: Seq<CurrencyAmount>) -> bool {
    forall|i: int, j: int| 0 <= i < j < s.len() ==> s[i].currency_id < s[j].currency_id
}

/// The totals that a list holds.
pub open spec fn totals_of(s: Seq<CurrencyAmount>) -> TotalsModel {
    Map::new(
        |c: CurrencyId| exists|i: int| 0 <= i < s.len() && s[i].currency_id == c,
        |c: CurrencyId| s[choose|i: int| 0 <= i < s.len() && s[i].currency_id == c].amount@,
    )
}

/// `a` added to the total for currency `c`; a currency seen for the first
/// time starts at `a`. `None` where a sum overflows.
pub open spec fn add_amount(t: Option<TotalsModel>, c: CurrencyId, a: (int, int)) -> Option<
    TotalsModel,
> {
    match t {
        None => None,
        Some(m) => if m.contains_key(c) {
            match decimal_sum(m[c], a) {
                Some(s) => Some(m.insert(c, s)),
                None => None,
            }
        } else {
            Some(m.insert(c, a))
        },
    }
}

/// Two sets of totals added currency by currency, the first operand first.
/// `None` where either is `None` or a sum overflows.
pub open spec fn merge_totals(a: Option<TotalsModel>, b: Option<TotalsModel>) -> Option<
    TotalsModel,
> {
    match (a, b) {
        (Some(x), Some(y)) => if exists|c: CurrencyId|
            x.contains_key(c) && y.contains_key(c) && #[trigger] decimal_sum(x[c], y[c]) is None {
            None
        } else {
            Some(
                Map::new(
                    |c: CurrencyId| x.contains_key(c) || y.contains_key(c),
                    |c: CurrencyId|
                        if x.contains_key(c) && y.contains_key(c) {
                            decimal_sum(x[c], y[c])->Some_0
                        } else if x.contains_key(c) {
                            x[c]
                        } else {
                            y[c]
                        },
                ),
            )
        },
        _ => None,
    }
}

/// In an ascending list, each entry is the total for its currency.
proof fn lemma_totals_of(s: Seq<CurrencyAmount>)
    requires
        ascending_currencies(s),
    ensures
        forall|i: int|
            0 <= i < s.len() ==> #[trigger] totals_of(s).contains_key(s[i].currency_id)
                && totals_of(s)[s[i].currency_id] == s[i].amount@,
{
    assert forall|i: int| 0 <= i < s.len() implies #[trigger] totals_of(s).contains_key(
        s[i].currency_id,
    ) && totals_of(s)[s[i].currency_id] == s[i].amount@ by {
        let c = s[i].currency_id;
        assert(exists|j: int| 0 <= j < s.len() && s[j].currency_id == c);
        let j = choose|j: int| 0 <= j < s.len() && s[j].currency_id == c;
        if j < i {
            assert(s[j].currency_id < s[i].currency_id);
        } else if j > i {
            assert(s[i].currency_id < s[j].currency_id);
        }
    }
}

/// Adds `ca` to its currency's total in an ascending list; `false` where the
/// sum overflows.
fn add_one(acc: &mut Vec<CurrencyAmount>, ca: CurrencyAmount) -> (ok: bool)
    requires
        ascending_currencies(old(acc)@),
    ensures
        ok ==> ascending_currencies(final(acc)@) && Some(totals_of(final(acc)@)) == add_amount(
            Some(totals_of(old(acc)@)),
            ca.currency_id,
            ca.amount@,
        ),
        !ok ==> add_amount(Some(totals_of(old(acc)@)), ca.currency_id, ca.amount@) is None,
{
    let ghost s = acc@;
    let c = ca.currency_id;
    proof {
        lemma_totals_of(s);
    }
    let mut i: usize = 0;
    while i < acc.len() && acc[i].currency_id < c
        invariant
            0 <= i <= acc.len(),
            acc@ == s,
            forall|j: int| 0 <= j < i ==> s[j].currency_id < c,
        decreases acc.len() - i,
    {
        i = i + 1;
    }
    if i < acc.len() && acc[i].currency_id == c {
        match checked_add(acc[i].amount, ca.amount) {
            None => {
                proof {
                    assert(totals_of(s).contains_key(s[i as int].currency_id));
                }
                false
            },
            Some(sum) => {
                acc.set(i, CurrencyAmount { currency_id: c, amount: sum });
                proof {
                    let t = acc@;
                    assert(ascending_currencies(t)) by {
                        assert forall|a: int, b: int| 0 <= a < b < t.len() implies t[a].currency_id
                            < t[b].currency_id by {
                            assert(s[a].currency_id < s[b].currency_id);
                        }
                    }
                    lemma_totals_of(t);
                    assert(totals_of(s).contains_key(c));
                    assert(totals_of(t) =~= totals_of(s).insert(c, sum@)) by {
                        assert forall|k: CurrencyId| #[trigger]
                            totals_of(t).contains_key(k) == totals_of(s).insert(
                                c,
                                sum@,
                            ).contains_key(k) by {
                            if totals_of(t).contains_key(k) {
                                let j = choose|j: int| 0 <= j < t.len() && t[j].currency_id == k;
                                if j != i {
                                    assert(s[j] == t[j]);
                                }
                            }
                            if totals_of(s).contains_key(k) {
                                let j = choose|j: int| 0 <= j < s.len() && s[j].currency_id == k;
                                assert(t[j].currency_id == k);
                            }
                        }
                        assert forall|k: CurrencyId| #[trigger]
                            totals_of(t).contains_key(k) implies totals_of(t)[k] == totals_of(
                            s,
                        ).insert(c, sum@)[k] by {
                            let j = choose|j: int| 0 <= j < t.len() && t[j].currency_id == k;
                            if j != i {
                                assert(s[j] == t[j]);
                            }
                        }
                    }
                }
                true
            },
        }
    } else {
        acc.insert(i, ca);
        proof {
            let t = acc@;
            assert(!totals_of(s).contains_key(c)) by {
                if totals_of(s).contains_key(c) {
                    let j = choose|j: int| 0 <= j < s.len() && s[j].currency_id == c;
                    if j < i {
                    } else if j == i {
                    } else {
                        assert(s[i as int].currency_id < s[j].currency_id);
                    }
                }
            }
            assert(ascending_currencies(t)) by {
                assert forall|a: int, b: int| 0 <= a < b < t.len() implies t[a].currency_id
                    < t[b].currency_id by {
                    if b < i {
                        assert(t[a] == s[a] && t[b] == s[b]);
                    } else if b == i {
                        assert(t[a] == s[a]);
                    } else if a < i {
                        assert(t[a] == s[a] && t[b] == s[b - 1]);
                        assert(s[i as int].currency_id > c);
                        if b - 1 > i {
                            assert(s[i as int].currency_id < s[b - 1].currency_id);
                        }
                    } else if a == i {
                        assert(t[b] == s[b - 1]);
                        assert(s[i as int].currency_id > c);
                        if b - 1 > i {
                            assert(s[i as int].currency_id < s[b - 1].currency_id);
                        }
                    } else {
                        assert(t[a] == s[a - 1] && t[b] == s[b - 1]);
                    }
                }
            }
            lemma_totals_of(t);
            assert(totals_of(t) =~= totals_of(s).insert(c, ca.amount@)) by {
                assert forall|k: CurrencyId| #[trigger]
                    totals_of(t).contains_key(k) == totals_of(s).insert(
                        c,
                        ca.amount@,
                    ).contains_key(k) by {
                    if totals_of(t).contains_key(k) {
                        let j = choose|j: int| 0 <= j < t.len() && t[j].currency_id == k;
                        if j < i {
                            assert(s[j] == t[j]);
                        } else if j > i {
                            assert(s[j - 1] == t[j]);
                        }
                    }
                    if totals_of(s).contains_key(k) {
                        let j = choose|j: int| 0 <= j < s.len() && s[j].currency_id == k;
                        if j < i {
                            assert(t[j].currency_id == k);
                        } else {
                            assert(t[j + 1].currency_id == k);
                        }
                    }
                    if k == c {
                        assert(t[i as int].currency_id == k);
                    }
                }
                assert forall|k: CurrencyId| #[trigger]
                    totals_of(t).contains_key(k) implies totals_of(t)[k] == totals_of(s).insert(
                    c,
                    ca.amount@,
                )[k] by {
                    let j = choose|j: int| 0 <= j < t.len() && t[j].currency_id == k;
                    if j < i {
                        assert(s[j] == t[j]);
                    } else if j > i {
                        assert(s[j - 1] == t[j]);
                    }
                }
            }
        }
        true
    }
}

/// Adding a currency not yet in `y` to the second operand of a merge is the
/// same as adding it to the merged totals.
proof fn lemma_merge_push(x: TotalsModel, y: TotalsModel, c: CurrencyId, a: (int, int))
    requires
        !y.contains_key(c),
    ensures
        merge_totals(Some(x), Some(y.insert(c, a))) == add_amount(
            merge_totals(Some(x), Some(y)),
            c,
            a,
        ),
{
    let y2 = y.insert(c, a);
    if exists|k: CurrencyId|
        x.contains_key(k) && y.contains_key(k) && #[trigger] decimal_sum(x[k], y[k]) is None {
        let k = choose|k: CurrencyId|
            x.contains_key(k) && y.contains_key(k) && #[trigger] decimal_sum(x[k], y[k]) is None;
        assert(y2.contains_key(k) && y2[k] == y[k]);
    } else if x.contains_key(c) && decimal_sum(x[c], a) is None {
        assert(y2.contains_key(c) && y2[c] == a);
    } else {
        assert(!exists|k: CurrencyId|
            x.contains_key(k) && y2.contains_key(k) && #[trigger] decimal_sum(x[k], y2[k]) is None)
            by {
            assert forall|k: CurrencyId|
                x.contains_key(k) && y2.contains_key(k) implies !(#[trigger] decimal_sum(
                x[k],
                y2[k],
            ) is None) by {
                if k != c {
                    assert(y.contains_key(k));
                }
            }
        }
        let m = merge_totals(Some(x), Some(y))->Some_0;
        assert(merge_totals(Some(x), Some(y2))->Some_0 =~= add_amount(Some(m), c, a)->Some_0);
    }
}

/// Adds each total of `other` into `acc`, currency by currency; `false`
/// where a sum overflows.
fn merge_into(acc: &mut Vec<CurrencyAmount>, other: &Vec<CurrencyAmount>) -> (ok: bool)
    requires
        ascending_currencies(old(acc)@),
        ascending_currencies(other@),
    ensures
        ok ==> ascending_currencies(final(acc)@) && Some(totals_of(final(acc)@)) == merge_totals(
            Some(totals_of(old(acc)@)),
            Some(totals_of(other@)),
        ),
        !ok ==> merge_totals(Some(totals_of(old(acc)@)), Some(totals_of(other@))) is None,
{
    let ghost x = totals_of(acc@);
    let ghost o = other@;
    proof {
        lemma_totals_of(o);
        assert(totals_of(o.subrange(0, 0)) =~= Map::empty());
        assert(merge_totals(Some(x), Some(Map::empty()))->Some_0 =~= x);
    }
    let mut i: usize = 0;
    while i < other.len()
        invariant
            0 <= i <= other.len(),
            o == other@,
            ascending_currencies(o),
            ascending_currencies(acc@),
            x == totals_of(old(acc)@),
            Some(totals_of(acc@)) == merge_totals(Some(x), Some(totals_of(o.subrange(0, i as int)))),
        decreases other.len() - i,
    {
        let ca = other[i];
        let ghost pre = o.subrange(0, i as int);
        let ghost post = o.subrange(0, i + 1);
        proof {
            assert(ascending_currencies(pre));
            assert(ascending_currencies(post));
            lemma_totals_of(pre);
            lemma_totals_of(post);
            assert(!totals_of(pre).contains_key(ca.currency_id)) by {
                if totals_of(pre).contains_key(ca.currency_id) {
                    let j = choose|j: int| 0 <= j < pre.len() && pre[j].currency_id == ca.currency_id;
                    assert(o[j].currency_id < o[i as int].currency_id);
                }
            }
            assert(totals_of(post) =~= totals_of(pre).insert(ca.currency_id, ca.amount@)) by {
                assert forall|k: CurrencyId| #[trigger] totals_of(post).contains_key(k)
                    == totals_of(pre).insert(ca.currency_id, ca.amount@).contains_key(k) by {
                    if totals_of(post).contains_key(k) {
                        let j = choose|j: int| 0 <= j < post.len() && post[j].currency_id == k;
                        if j < i {
                            assert(pre[j] == post[j]);
                        }
                    }
                    if totals_of(pre).contains_key(k) {
                        let j = choose|j: int| 0 <= j < pre.len() && pre[j].currency_id == k;
                        assert(post[j] == pre[j]);
                    }
                    if k == ca.currency_id {
                        assert(post[i as int] == ca);
                    }
                }
                assert forall|k: CurrencyId| #[trigger]
                    totals_of(post).contains_key(k) implies totals_of(post)[k] == totals_of(
                    pre,
                ).insert(ca.currency_id, ca.amount@)[k] by {
                    let j = choose|j: int| 0 <= j < post.len() && post[j].currency_id == k;
                    if j < i {
                        assert(pre[j] == post[j]);
                    }
                }
            }
            lemma_merge_push(x, totals_of(pre), ca.currency_id, ca.amount@);
        }
        if !add_one(acc, ca) {
            proof {
                lemma_merge_none_prefix(x, o, i + 1);
            }
            return false;
        }
        i = i + 1;
    }
    proof {
        assert(o.subrange(0, o.len() as int) =~= o);
    }
    true
}

/// Where a merge with the first `k` totals of a list overflows, the merge with
/// the whole list overflows too.
proof fn lemma_merge_none_prefix(x: TotalsModel, o: Seq<CurrencyAmount>, k: int)
    requires
        ascending_currencies(o),
        0 <= k <= o.len(),
        merge_totals(Some(x), Some(totals_of(o.subrange(0, k)))) is None,
    ensures
        merge_totals(Some(x), Some(totals_of(o))) is None,
{
    let p = o.subrange(0, k);
    let c = choose|c: CurrencyId|
        x.contains_key(c) && totals_of(p).contains_key(c) && #[trigger] decimal_sum(
            x[c],
            totals_of(p)[c],
        ) is None;
    assert(ascending_currencies(p));
    lemma_totals_of(p);
    lemma_totals_of(o);
    let j = choose|j: int| 0 <= j < p.len() && p[j].currency_id == c;
    assert(p[j] == o[j]);
    assert(totals_of(o).contains_key(c) && totals_of(o)[c] == totals_of(p)[c]);
}

/// The totals of the legs of one type, taken in order.
pub open spec fn entry_totals(entries: Seq<LedgerEntry>, ty: EntryType) -> Option<TotalsModel>
    decreases entries.len(),
{
    if entries.len() == 0 {
        Some(Map::empty())
    } else {
        let e = entries.last();
        let before = entry_totals(entries.drop_last(), ty);
        if e.entry_type == ty {
            add_amount(before, e.currency_amount.currency_id, e.currency_amount.amount@)
        } else {
            before
        }
    }
}

/// The legs of one currency, in order.
pub open spec fn currency_legs(entries: Seq<LedgerEntry>, c: CurrencyId) -> Seq<LedgerEntry>
    decreases entries.len(),
{
    if entries.len() == 0 {
        Seq::empty()
    } else {
        let before = currency_legs(entries.drop_last(), c);
        if entries.last().currency_amount.currency_id == c {
            before.push(entries.last())
        } else {
            before
        }
    }
}

/// Currencies are totalled apart: where the totals of a list of legs exist,
/// the total for a currency is the total of that currency's legs alone, and
/// those legs make no total for any other currency.
pub proof fn lemma_currency_independence(entries: Seq<LedgerEntry>, ty: EntryType, c: CurrencyId)
    requires
        entry_totals(entries, ty) is Some,
    ensures
        entry_totals(currency_legs(entries, c), ty) is Some,
        entry_totals(entries, ty)->Some_0.contains_key(c) == entry_totals(
            currency_legs(entries, c),
            ty,
        )->Some_0.contains_key(c),
        entry_totals(entries, ty)->Some_0.contains_key(c) ==> entry_totals(entries, ty)->Some_0[c]
            == entry_totals(currency_legs(entries, c), ty)->Some_0[c],
        forall|k: CurrencyId|
            k != c ==> !(#[trigger] entry_totals(currency_legs(entries, c), ty)->Some_0.contains_key(
                k,
            )),
    decreases entries.len(),
{
    if entries.len() > 0 {
        let e = entries.last();
        let pre = entries.drop_last();
        assert(entry_totals(pre, ty) is Some);
        lemma_currency_independence(pre, ty, c);
        let legs = currency_legs(entries, c);
        if e.currency_amount.currency_id == c {
            assert(legs.drop_last() =~= currency_legs(pre, c));
            assert(legs.last() == e);
        } else {
            assert(legs == currency_legs(pre, c));
        }
    }
}

/// The legs that name an account directly.
pub open spec fn own_entries(m: LedgerModel, id: AccountId) -> Seq<LedgerEntry> {
    if m.account_entries.contains_key(id) {
        m.account_entries[id]
    } else {
        Seq::empty()
    }
}

/// The totals of an account and its descendants: its own legs, then the
/// totals of its children added in ascending order of id. Children are
/// followed at most `fuel` levels down.
pub open spec fn subtree_totals(m: LedgerModel, id: AccountId, ty: EntryType, fuel: nat) -> Option<
    TotalsModel,
>
    decreases fuel, 0nat,
{
    let own = entry_totals(own_entries(m, id), ty);
    if fuel == 0 {
        own
    } else {
        merge_totals(own, children_totals(m, m.child_ids(id), ty, (fuel - 1) as nat))
    }
}

/// The totals of the subtrees of `kids`, added in the order of `kids`.
pub open spec fn children_totals(
    m: LedgerModel,
    kids: Seq<AccountId>,
    ty: EntryType,
    fuel: nat,
) -> Option<TotalsModel>
    decreases fuel, kids.len() + 1,
{
    if kids.len() == 0 {
        Some(Map::empty())
    } else {
        merge_totals(
            children_totals(m, kids.drop_last(), ty, fuel),
            subtree_totals(m, kids.last(), ty, fuel),
        )
    }
}

/// The totals of an account and all its descendants. Children are followed
/// as many levels down as there are accounts, which reaches every descendant
/// where the parent links hold no cycle.
pub open spec fn account_totals(m: LedgerModel, id: AccountId, ty: EntryType) -> Option<TotalsModel> {
    subtree_totals(m, id, ty, m.accounts.len())
}

/// `a` is `id` itself or lies below it, at most `fuel` levels down.
pub open spec fn in_subtree(m: LedgerModel, id: AccountId, a: AccountId, fuel: nat) -> bool
    decreases fuel, 0nat,
{
    a == id || (fuel > 0 && in_subtrees(m, m.child_ids(id), a, (fuel - 1) as nat))
}

/// `a` lies in the subtree of one of `kids`, at most `fuel` levels below it.
pub open spec fn in_subtrees(m: LedgerModel, kids: Seq<AccountId>, a: AccountId, fuel: nat) -> bool
    decreases fuel, kids.len() + 1,
{
    kids.len() > 0 && (in_subtrees(m, kids.drop_last(), a, fuel) || in_subtree(
        m,
        kids.last(),
        a,
        fuel,
    ))
}

/// Appending legs that do not name `a` leaves the list of `a` as it was.
proof fn lemma_append_elsewhere(
    lists: Map<AccountId, Seq<LedgerEntry>>,
    entries: Seq<LedgerEntry>,
    a: AccountId,
)
    requires
        forall|j: int| 0 <= j < entries.len() ==> #[trigger] entries[j].account_id != a,
    ensures
        append_account_entries(lists, entries).contains_key(a) == lists.contains_key(a),
        lists.contains_key(a) ==> append_account_entries(lists, entries)[a] == lists[a],
    decreases entries.len(),
{
    if entries.len() > 0 {
        assert forall|j: int| 0 <= j < entries.drop_last().len() implies #[trigger] entries.drop_last()[j].account_id != a by {
            assert(entries.drop_last()[j] == entries[j]);
        }
        lemma_append_elsewhere(lists, entries.drop_last(), a);
        assert(entries[entries.len() - 1].account_id != a);
    }
}

/// Legs that name no account of the subtree of `id` leave its totals as they were.
proof fn lemma_subtree_untouched(
    m: LedgerModel,
    entries: Seq<LedgerEntry>,
    id: AccountId,
    ty: EntryType,
    fuel: nat,
)
    requires
        forall|j: int| 0 <= j < entries.len() ==> !in_subtree(m, id, #[trigger] entries[j].account_id, fuel),
    ensures
        subtree_totals(m.add_account_entries(entries), id, ty, fuel) == subtree_totals(m, id, ty, fuel),
    decreases fuel, 0nat,
{
    let m2 = m.add_account_entries(entries);
    assert forall|j: int| 0 <= j < entries.len() implies #[trigger] entries[j].account_id != id by {
        assert(!in_subtree(m, id, entries[j].account_id, fuel));
    }
    lemma_append_elsewhere(m.account_entries, entries, id);
    assert(own_entries(m2, id) == own_entries(m, id));
    if fuel > 0 {
        let kids = m.child_ids(id);
        let f = (fuel - 1) as nat;
        assert(m2.child_ids(id) == kids);
        assert forall|j: int| 0 <= j < entries.len() implies !in_subtrees(
            m,
            kids,
            #[trigger] entries[j].account_id,
            f,
        ) by {
            assert(!in_subtree(m, id, entries[j].account_id, fuel));
        }
        lemma_children_untouched(m, entries, kids, ty, f);
    }
}

/// Legs that name no account below any of `kids` leave their totals as they were.
proof fn lemma_children_untouched(
    m: LedgerModel,
    entries: Seq<LedgerEntry>,
    kids: Seq<AccountId>,
    ty: EntryType,
    fuel: nat,
)
    requires
        forall|j: int| 0 <= j < entries.len() ==> !in_subtrees(m, kids, #[trigger] entries[j].account_id, fuel),
    ensures
        children_totals(m.add_account_entries(entries), kids, ty, fuel) == children_totals(
            m,
            kids,
            ty,
            fuel,
        ),
    decreases fuel, kids.len() + 1,
{
    if kids.len() > 0 {
        assert forall|j: int| 0 <= j < entries.len() implies !in_subtrees(
            m,
            kids.drop_last(),
            #[trigger] entries[j].account_id,
            fuel,
        ) && !in_subtree(m, kids.last(), entries[j].account_id, fuel) by {
            assert(!in_subtrees(m, kids, entries[j].account_id, fuel));
        }
        lemma_children_untouched(m, entries, kids.drop_last(), ty, fuel);
        lemma_subtree_untouched(m, entries, kids.last(), ty, fuel);
    }
}

/// Legs change only the totals of the accounts they name and of those
/// accounts' ancestors: where no leg names an account of the subtree of `id`,
/// its totals stay as they were.
pub proof fn lemma_totals_untouched(
    m: LedgerModel,
    entries: Seq<LedgerEntry>,
    id: AccountId,
    ty: EntryType,
)
    requires
        forall|j: int|
            0 <= j < entries.len() ==> !in_subtree(
                m,
                id,
                #[trigger] entries[j].account_id,
                m.accounts.len(),
            ),
    ensures
        account_totals(m.add_account_entries(entries), id, ty) == account_totals(m, id, ty),
{
    lemma_subtree_untouched(m, entries, id, ty, m.accounts.len());
}

/// Totals of an account with those of its descendants, and the same for
/// each child.
#[derive(Debug)]
pub struct AccountTotals {
    pub account: Account,
    pub debit_totals: Vec<CurrencyAmount>,
    pub credit_totals: Vec<CurrencyAmount>,
    pub child_account_totals: Vec<AccountTotals>,
}

/// `t` is the report tree of its account in `m`, descending `fuel` levels.
pub open spec fn totals_match(m: LedgerModel, t: AccountTotals, fuel: nat) -> bool
    decreases fuel,
{
    let id = t.account.id;
    &&& ascending_currencies(t.debit_totals@)
    &&& ascending_currencies(t.credit_totals@)
    &&& Some(totals_of(t.debit_totals@)) == subtree_totals(m, id, EntryType::Debit, fuel)
    &&& Some(totals_of(t.credit_totals@)) == subtree_totals(m, id, EntryType::Credit, fuel)
    &&& if fuel == 0 {
        t.child_account_totals.len() == 0
    } else {
        let kids = m.child_ids(id);
        &&& t.child_account_totals.len() == kids.len()
        &&& forall|i: int|
            0 <= i < kids.len() ==> {
                &&& #[trigger] t.child_account_totals[i].account == m.accounts[kids[i]]
                &&& totals_match(m, t.child_account_totals[i], (fuel - 1) as nat)
            }
    }
}

/// An account's totals with children are its own merged with theirs.
proof fn lemma_subtree_unfold(m: LedgerModel, id: AccountId, ty: EntryType, fuel: nat)
    requires
        fuel > 0,
    ensures
        subtree_totals(m, id, ty, fuel) == merge_totals(
            entry_totals(own_entries(m, id), ty),
            children_totals(m, m.child_ids(id), ty, (fuel - 1) as nat),
        ),
{
}

/// Where the totals of a child overflow when added to those of the children
/// before it, the totals of the parent overflow.
proof fn lemma_child_overflow(m: LedgerModel, id: AccountId, ty: EntryType, fuel: nat, i: int)
    requires
        fuel > 0,
        0 <= i < m.child_ids(id).len(),
        merge_totals(
            children_totals(m, m.child_ids(id).subrange(0, i), ty, (fuel - 1) as nat),
            subtree_totals(m, m.child_ids(id)[i], ty, (fuel - 1) as nat),
        ) is None,
    ensures
        subtree_totals(m, id, ty, fuel) is None,
{
    let ids = m.child_ids(id);
    let f = (fuel - 1) as nat;
    assert(ids.subrange(0, i + 1).drop_last() =~= ids.subrange(0, i));
    assert(ids.subrange(0, i + 1).last() == ids[i]);
    assert(children_totals(m, ids.subrange(0, i + 1), ty, f) is None);
    lemma_children_totals_none(m, ids, ty, f, i + 1);
    lemma_subtree_unfold(m, id, ty, fuel);
}

/// Where the totals of the first `k` legs overflow, so do those of all.
proof fn lemma_entry_totals_none(entries: Seq<LedgerEntry>, ty: EntryType, k: int)
    requires
        0 <= k <= entries.len(),
        entry_totals(entries.subrange(0, k), ty) is None,
    ensures
        entry_totals(entries, ty) is None,
    decreases entries.len(),
{
    if k < entries.len() {
        assert(entries.drop_last().subrange(0, k) =~= entries.subrange(0, k));
        lemma_entry_totals_none(entries.drop_last(), ty, k);
    } else {
        assert(entries.subrange(0, k) =~= entries);
    }
}

/// Where the totals of the first `k` children overflow, so do those of all.
proof fn lemma_children_totals_none(
    m: LedgerModel,
    kids: Seq<AccountId>,
    ty: EntryType,
    fuel: nat,
    k: int,
)
    requires
        0 <= k <= kids.len(),
        children_totals(m, kids.subrange(0, k), ty, fuel) is None,
    ensures
        children_totals(m, kids, ty, fuel) is None,
    decreases kids.len(),
{
    if k < kids.len() {
        assert(kids.drop_last().subrange(0, k) =~= kids.subrange(0, k));
        lemma_children_totals_none(m, kids.drop_last(), ty, fuel, k);
    } else {
        assert(kids.subrange(0, k) =~= kids);
    }
}

/// The totals of the legs that name `id` directly, split by type; `None`
/// where a sum overflows.
fn own_totals(ledger: &Ledger, id: AccountId) -> (r: Option<(Vec<CurrencyAmount>, Vec<CurrencyAmount>)>)
    ensures
        match r {
            Some((d, c)) => {
                &&& ascending_currencies(d@)
                &&& ascending_currencies(c@)
                &&& Some(totals_of(d@)) == entry_totals(own_entries(ledger@, id), EntryType::Debit)
                &&& Some(totals_of(c@)) == entry_totals(own_entries(ledger@, id), EntryType::Credit)
            },
            None => entry_totals(own_entries(ledger@, id), EntryType::Debit) is None
                || entry_totals(own_entries(ledger@, id), EntryType::Credit) is None,
        },
{
    let mut debits: Vec<CurrencyAmount> = Vec::new();
    let mut credits: Vec<CurrencyAmount> = Vec::new();
    proof {
        assert(totals_of(debits@) =~= Map::empty());
        assert(totals_of(credits@) =~= Map::empty());
    }
    match ledger.get_account_entries(&id) {
        None => {
            proof {
                assert(own_entries(ledger@, id) =~= Seq::<LedgerEntry>::empty());
            }
        },
        Some(entries) => {
            let ghost es = entries@;
            let mut i: usize = 0;
            proof {
                assert(es.subrange(0, 0) =~= Seq::<LedgerEntry>::empty());
            }
            while i < entries.len()
                invariant
                    0 <= i <= entries.len(),
                    es == entries@,
                    es == own_entries(ledger@, id),
                    ascending_currencies(debits@),
                    ascending_currencies(credits@),
                    Some(totals_of(debits@)) == entry_totals(
                        es.subrange(0, i as int),
                        EntryType::Debit,
                    ),
                    Some(totals_of(credits@)) == entry_totals(
                        es.subrange(0, i as int),
                        EntryType::Credit,
                    ),
                decreases entries.len() - i,
            {
                let ca = entries[i].currency_amount;
                proof {
                    assert(es.subrange(0, i + 1).drop_last() =~= es.subrange(0, i as int));
                    assert(es.subrange(0, i + 1).last() == es[i as int]);
                }
                let ok = match entries[i].entry_type {
                    EntryType::Debit => add_one(&mut debits, ca),
                    EntryType::Credit => add_one(&mut credits, ca),
                };
                if !ok {
                    proof {
                        if es[i as int].entry_type == EntryType::Debit {
                            lemma_entry_totals_none(es, EntryType::Debit, i + 1);
                        } else {
                            lemma_entry_totals_none(es, EntryType::Credit, i + 1);
                        }
                    }
                    return None;
                }
                i = i + 1;
            }
            proof {
                assert(es.subrange(0, i as int) =~= es);
            }
        },
    }
    Some((debits, credits))
}

impl AccountTotals {
    /// The report tree of an account: its debit and credit totals per
    /// currency, its own legs with those of all its descendants, and the same
    /// for each child. `None` where a sum overflows.
    pub fn new(ledger: &Ledger, account: &Account) -> (r: Option<AccountTotals>)
        requires
            ledger@.wf(),
        ensures
            match r {
                Some(t) => t.account == *account && totals_match(
                    ledger@,
                    t,
                    ledger@.accounts.len(),
                ),
                None => account_totals(ledger@, account.id, EntryType::Debit) is None
                    || account_totals(ledger@, account.id, EntryType::Credit) is None,
            },
    {
        let n = ledger.account_count();
        AccountTotals::new_within(ledger, account, n)
    }

    /// The report tree of `account`, descending at most `fuel` levels;
    /// `None` where a sum overflows.
    fn new_within(ledger: &Ledger, account: &Account, fuel: usize) -> (r: Option<AccountTotals>)
        requires
            ledger@.wf(),
        ensures
            match r {
                Some(t) => t.account == *account && totals_match(ledger@, t, fuel as nat),
                None => subtree_totals(ledger@, account.id, EntryType::Debit, fuel as nat) is None
                    || subtree_totals(ledger@, account.id, EntryType::Credit, fuel as nat) is None,
            },
        decreases fuel,
    {
        let ghost m = ledger@;
        let id = account.id;
        let mut children: Vec<AccountTotals> = Vec::new();
        let mut child_debits: Vec<CurrencyAmount> = Vec::new();
        let mut child_credits: Vec<CurrencyAmount> = Vec::new();
        proof {
            assert(totals_of(child_debits@) =~= Map::empty());
            assert(totals_of(child_credits@) =~= Map::empty());
        }
        if fuel > 0 {
            let kids = ledger.children(&id);
            let ghost ids = m.child_ids(id);
            let ghost f = (fuel - 1) as nat;
            proof {
                assert(ids.subrange(0, 0) =~= Seq::<AccountId>::empty());
            }
            let mut i: usize = 0;
            while i < kids.len()
                invariant
                    m == ledger@,
                    m.wf(),
                    id == account.id,
                    ids == m.child_ids(id),
                    f == fuel - 1,
                    fuel > 0,
                    kids.len() == ids.len(),
                    forall|j: int| 0 <= j < kids.len() ==> *kids[j] == m.accounts[ids[j]],
                    forall|j: int| 0 <= j < kids.len() ==> kids[j].id == ids[j],
                    0 <= i <= kids.len(),
                    children.len() == i,
                    forall|j: int|
                        0 <= j < i ==> {
                            &&& #[trigger] children[j].account == m.accounts[ids[j]]
                            &&& totals_match(m, children[j], f)
                        },
                    ascending_currencies(child_debits@),
                    ascending_currencies(child_credits@),
                    Some(totals_of(child_debits@)) == children_totals(
                        m,
                        ids.subrange(0, i as int),
                        EntryType::Debit,
                        f,
                    ),
                    Some(totals_of(child_credits@)) == children_totals(
                        m,
                        ids.subrange(0, i as int),
                        EntryType::Credit,
                        f,
                    ),
                decreases kids.len() - i,
            {
                proof {
                    assert(ids.subrange(0, i + 1).drop_last() =~= ids.subrange(0, i as int));
                    assert(ids.subrange(0, i + 1).last() == ids[i as int]);
                }
                let child = match AccountTotals::new_within(ledger, kids[i], fuel - 1) {
                    Some(t) => t,
                    None => {
                        proof {
                            if subtree_totals(m, ids[i as int], EntryType::Debit, f) is None {
                                lemma_child_overflow(m, id, EntryType::Debit, fuel as nat, i as int);
                            } else {
                                lemma_child_overflow(m, id, EntryType::Credit, fuel as nat, i as int);
                            }
                        }
                        return None;
                    },
                };
                proof {
                    assert(child.account.id == ids[i as int]);
                    assert(Some(totals_of(child.debit_totals@)) == subtree_totals(m, ids[i as int], EntryType::Debit, f));
                    assert(Some(totals_of(child.credit_totals@)) == subtree_totals(m, ids[i as int], EntryType::Credit, f));
                }
                if !merge_into(&mut child_debits, &child.debit_totals) {
                    proof {
                        lemma_child_overflow(m, id, EntryType::Debit, fuel as nat, i as int);
                    }
                    return None;
                }
                if !merge_into(&mut child_credits, &child.credit_totals) {
                    proof {
                        lemma_child_overflow(m, id, EntryType::Credit, fuel as nat, i as int);
                    }
                    return None;
                }
                children.push(child);
                i = i + 1;
            }
            proof {
                assert(ids.subrange(0, i as int) =~= ids);
            }
        }
        proof {
            if fuel == 0 {
                let d = entry_totals(own_entries(m, id), EntryType::Debit);
                let c = entry_totals(own_entries(m, id), EntryType::Credit);
                if d is Some {
                    assert(merge_totals(d, Some(Map::empty()))->Some_0 =~= d->Some_0);
                }
                if c is Some {
                    assert(merge_totals(c, Some(Map::empty()))->Some_0 =~= c->Some_0);
                }
            }
        }
        let (mut debits, mut credits) = match own_totals(ledger, id) {
            Some(p) => p,
            None => {
                return None;
            },
        };
        if !merge_into(&mut debits, &child_debits) {
            return None;
        }
        if !merge_into(&mut credits, &child_credits) {
            return None;
        }
        Some(
            AccountTotals {
                account: account.clone(),
                debit_totals: debits,
                credit_totals: credits,
                child_account_totals: children,
            },
        )
    }
}

/// A statement: the report tree of each requested account.
#[derive(Debug)]
pub struct Report {
    pub date_time: Timestamp,
    pub account_ids: Vec<AccountId>,
    pub account_totals: Vec<AccountTotals>,
}

impl Report {
    /// The report trees of the given accounts, in the order given; `None`
    /// where a sum overflows.
    pub fn new(ledger: &Ledger, date_time: Timestamp, account_ids: Vec<AccountId>) -> (r: Option<
        Report,
    >)
        requires
            ledger@.wf(),
            forall|i: int|
                0 <= i < account_ids.len() ==> ledger@.accounts.contains_key(#[trigger] account_ids[i]),
        ensures
            match r {
                Some(rep) => {
                    &&& rep.date_time == date_time
                    &&& rep.account_ids@ == account_ids@
                    &&& rep.account_totals.len() == account_ids.len()
                    &&& forall|i: int|
                        0 <= i < account_ids.len() ==> {
                            &&& #[trigger] rep.account_totals[i].account
                                == ledger@.accounts[account_ids[i]]
                            &&& totals_match(ledger@, rep.account_totals[i], ledger@.accounts.len())
                        }
                },
                None => exists|i: int|
                    0 <= i < account_ids.len() && (account_totals(
                        ledger@,
                        #[trigger] account_ids[i],
                        EntryType::Debit,
                    ) is None || account_totals(ledger@, account_ids[i], EntryType::Credit) is None),
            },
    {
        let mut account_totals: Vec<AccountTotals> = Vec::new();
        let mut i: usize = 0;
        while i < account_ids.len()
            invariant
                ledger@.wf(),
                forall|j: int|
                    0 <= j < account_ids.len() ==> ledger@.accounts.contains_key(
                        #[trigger] account_ids[j],
                    ),
                0 <= i <= account_ids.len(),
                account_totals.len() == i,
                forall|j: int|
                    0 <= j < i ==> {
                        &&& #[trigger] account_totals[j].account == ledger@.accounts[account_ids[j]]
                        &&& totals_match(ledger@, account_totals[j], ledger@.accounts.len())
                    },
            decreases account_ids.len() - i,
        {
            let id = account_ids[i];
            let account = match ledger.get_account(&id) {
                Some(a) => a,
                None => {
                    return None;
                },
            };
            proof {
                assert(ledger@.accounts.contains_key(account_ids[i as int]));
                assert(ledger@.accounts[id].id == id);
            }
            match AccountTotals::new(ledger, account) {
                Some(t) => account_totals.push(t),
                None => {
                    return None;
                },
            }
            i = i + 1;
        }
        Some(Report { date_time, account_ids, account_totals })
    }
}

} // verus!
