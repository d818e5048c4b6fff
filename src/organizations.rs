//! Routing of journal entries to the ledger of the organization they name.
use vstd::prelude::*;
use std::collections::BTreeMap;
use crate::journal::{Action, JournalEntry, Organization, OrganizationId};
use crate::ledger::{lemma_apply_action_wf, Error, Ledger, LedgerModel};

verus! {

/// What the organization ledgers hold, as maps.
pub struct OrganizationsModel {
    pub organizations: Map<OrganizationId, Organization>,
    pub ledgers: Map<OrganizationId, LedgerModel>,
}

impl OrganizationsModel {
    /// No organization at all.
    pub open spec fn empty() -> OrganizationsModel {
        OrganizationsModel { organizations: Map::empty(), ledgers: Map::empty() }
    }

    /// Each registered organization has a ledger, and each ledger is well formed.
    pub open spec fn wf(self) -> bool {
        &&& forall|k: OrganizationId| #[trigger]
            self.organizations.contains_key(k) <==> self.ledgers.contains_key(k)
        &&& forall|k: OrganizationId| #[trigger]
            self.ledgers.contains_key(k) ==> self.ledgers[k].wf()
    }

    /// The state after one journal entry, and what adding it returns.
    pub open spec fn apply(self, entry: JournalEntry) -> (OrganizationsModel, Result<(), Error>) {
        let id = entry.organization_id;
        match entry.action {
            Action::AddOrganization { contact, organization } => if self.ledgers.contains_key(id) {
                (self, Err(Error::OrganizationExists(id)))
            } else {
                let ledger = LedgerModel {
                    contacts: Map::empty().insert(contact.id, contact),
                    ..LedgerModel::empty()
                };
                (
                    OrganizationsModel {
                        organizations: self.organizations.insert(id, organization),
                        ledgers: self.ledgers.insert(id, ledger),
                    },
                    Ok(()),
                )
            },
            action => if !self.ledgers.contains_key(id) {
                (self, Err(Error::MissingOrganization(id)))
            } else {
                let (ledger, r) = self.ledgers[id].apply_action(action);
                (OrganizationsModel { ledgers: self.ledgers.insert(id, ledger), ..self }, r)
            },
        }
    }

    /// The state after the entries in order, stopping at the first that is
    /// refused, and what that one returned.
    pub open spec fn replay(self, entries: Seq<JournalEntry>) -> (OrganizationsModel, Result<
        (),
        Error,
    >)
        decreases entries.len(),
    {
        if entries.len() == 0 {
            (self, Ok(()))
        } else {
            let (m, r) = self.replay(entries.drop_last());
            if r is Err {
                (m, r)
            } else {
                m.apply(entries.last())
            }
        }
    }
}

/// Once an entry is refused, the entries after it change nothing.
proof fn lemma_replay_stops(m: OrganizationsModel, s: Seq<JournalEntry>, k: int)
    requires
        0 <= k <= s.len(),
        m.replay(s.subrange(0, k)).1 is Err,
    ensures
        m.replay(s) == m.replay(s.subrange(0, k)),
    decreases s.len(),
{
    if k < s.len() {
        assert(s.drop_last().subrange(0, k) =~= s.subrange(0, k));
        lemma_replay_stops(m, s.drop_last(), k);
    } else {
        assert(s.subrange(0, k) =~= s);
    }
}

/// Replay is deterministic: two fresh sets of ledgers given the same entries
/// in the same order end in the same state with the same result. Adding
/// entries ends in `replay` of them, so this holds of the ledgers themselves.
pub proof fn lemma_replay_determinism(
    a: OrganizationsModel,
    b: OrganizationsModel,
    entries: Seq<JournalEntry>,
)
    requires
        a == OrganizationsModel::empty(),
        b == OrganizationsModel::empty(),
    ensures
        a.replay(entries) == b.replay(entries),
{
}

/// Replaying a journal in two parts ends where replaying it whole does, as
/// long as the first part is accepted: a restart that reloads the journal
/// rebuilds the same ledgers as the process that wrote it.
pub proof fn lemma_replay_split(m: OrganizationsModel, first: Seq<JournalEntry>, rest: Seq<JournalEntry>)
    requires
        m.replay(first).1 is Ok,
    ensures
        m.replay(first + rest) == m.replay(first).0.replay(rest),
    decreases rest.len(),
{
    if rest.len() == 0 {
        assert(first + rest =~= first);
    } else {
        lemma_replay_split(m, first, rest.drop_last());
        assert((first + rest).drop_last() =~= first + rest.drop_last());
        assert((first + rest).last() == rest.last());
    }
}

/// Replaying entries keeps the ledgers well formed.
pub proof fn lemma_replay_wf(m: OrganizationsModel, entries: Seq<JournalEntry>)
    requires
        m.wf(),
    ensures
        m.replay(entries).0.wf(),
    decreases entries.len(),
{
    if entries.len() > 0 {
        lemma_replay_wf(m, entries.drop_last());
        let m1 = m.replay(entries.drop_last()).0;
        if m.replay(entries.drop_last()).1 is Ok {
            lemma_apply_wf(m1, entries.last());
        }
    }
}

/// One entry keeps the ledgers well formed.
pub proof fn lemma_apply_wf(m: OrganizationsModel, entry: JournalEntry)
    requires
        m.wf(),
    ensures
        m.apply(entry).0.wf(),
{
    let id = entry.organization_id;
    let m1 = m.apply(entry).0;
    match entry.action {
        Action::AddOrganization { contact, organization } => {
            if !m.ledgers.contains_key(id) {
                let l = m1.ledgers[id];
                assert(l.account_order =~= Seq::<u128>::empty());
                assert(l.wf());
                assert forall|k: OrganizationId| #[trigger] m1.ledgers.contains_key(k) implies m1.ledgers[k].wf() by {
                    if k != id {
                        assert(m.ledgers.contains_key(k));
                    }
                }
            }
        },
        action => {
            if m.ledgers.contains_key(id) {
                lemma_apply_action_wf(m.ledgers[id], action);
                assert forall|k: OrganizationId| #[trigger] m1.ledgers.contains_key(k) implies m1.ledgers[k].wf() by {
                    if k != id {
                        assert(m.ledgers.contains_key(k));
                    }
                }
            }
        },
    }
}

/// An entry whose organization was never added is refused with
/// `MissingOrganization`, and nothing changes.
pub proof fn lemma_unknown_organization(m: OrganizationsModel, entry: JournalEntry)
    requires
        !(entry.action is AddOrganization),
        !m.ledgers.contains_key(entry.organization_id),
    ensures
        m.apply(entry) == (m, Err::<(), Error>(Error::MissingOrganization(entry.organization_id))),
{
}

/// Entries for other organizations leave an organization's ledger as it is:
/// each tenant's ledger changes only through entries that name it.
pub proof fn lemma_tenant_isolation(
    m: OrganizationsModel,
    entries: Seq<JournalEntry>,
    other: OrganizationId,
)
    requires
        forall|i: int| 0 <= i < entries.len() ==> #[trigger] entries[i].organization_id != other,
    ensures
        m.replay(entries).0.ledgers.contains_key(other) == m.ledgers.contains_key(other),
        m.replay(entries).0.organizations.contains_key(other) == m.organizations.contains_key(
            other,
        ),
        m.ledgers.contains_key(other) ==> m.replay(entries).0.ledgers[other] == m.ledgers[other],
        m.organizations.contains_key(other) ==> m.replay(entries).0.organizations[other]
            == m.organizations[other],
    decreases entries.len(),
{
    if entries.len() > 0 {
        assert forall|i: int| 0 <= i < entries.drop_last().len() implies #[trigger] entries.drop_last()[i].organization_id != other by {
            assert(entries.drop_last()[i] == entries[i]);
        }
        lemma_tenant_isolation(m, entries.drop_last(), other);
        assert(entries[entries.len() - 1].organization_id != other);
    }
}

/// The ledgers of all organizations, keyed by organization id.
pub struct OrganizationLedgers {
    organization_map: BTreeMap<OrganizationId, Organization>,
    ledger_map: BTreeMap<OrganizationId, Ledger>,
}

impl View for OrganizationLedgers {
    type V = OrganizationsModel;

    closed spec fn view(&self) -> OrganizationsModel {
        OrganizationsModel {
            organizations: self.organization_map@,
            ledgers: self.ledger_map@.map_values(|l: Ledger| l@),
        }
    }
}

impl OrganizationLedgers {
    /// No organization yet.
    pub fn new() -> (r: OrganizationLedgers)
        ensures
            r@ == OrganizationsModel::empty(),
            r@.wf(),
    {
        let r = OrganizationLedgers { organization_map: BTreeMap::new(), ledger_map: BTreeMap::new() };
        assert(r@.ledgers =~= Map::empty());
        r
    }

    /// Whether an organization of this id was added.
    pub fn organization_exists(&self, organization_id: &OrganizationId) -> (r: bool)
        ensures
            r == self@.organizations.contains_key(*organization_id),
    {
        self.organization_map.contains_key(organization_id)
    }

    /// The ledger of an organization.
    pub fn get_ledger(&self, organization_id: &OrganizationId) -> (r: Result<&Ledger, Error>)
        ensures
            match r {
                Ok(l) => self@.ledgers.contains_key(*organization_id) && l@
                    == self@.ledgers[*organization_id],
                Err(e) => !self@.ledgers.contains_key(*organization_id) && e
                    == Error::MissingOrganization(*organization_id),
            },
    {
        match self.ledger_map.get(organization_id) {
            Some(ledger) => Ok(ledger),
            None => Err(Error::MissingOrganization(*organization_id)),
        }
    }

    /// Adds the entries in order and stops at the first that is refused,
    /// returning its error; the entries before it stay added.
    pub fn add_journal_entries(&mut self, journal_entries: Vec<JournalEntry>) -> (r: Result<
        (),
        Error,
    >)
        requires
            old(self)@.wf(),
        ensures
            final(self)@.wf(),
            (final(self)@, r) == old(self)@.replay(journal_entries@),
    {
        let ghost s = journal_entries@;
        let ghost m0 = self@;
        for je in it: journal_entries.into_iter()
            invariant
                it.seq() == s,
                s == journal_entries@,
                m0 == old(self)@,
                self@.wf(),
                (self@, Ok::<(), Error>(())) == m0.replay(s.subrange(0, it.index() as int)),
        {
            let ghost i = it.index() as int;
            let ghost prev = self@;
            proof {
                assert(s.subrange(0, i + 1).drop_last() =~= s.subrange(0, i));
                assert(s.subrange(0, i + 1).last() == je);
            }
            let r = self.add_journal_entry(je);
            if r.is_err() {
                proof {
                    assert(m0.replay(s.subrange(0, i + 1)) == prev.apply(je));
                    assert(m0.replay(s.subrange(0, i + 1)).1 is Err);
                    lemma_replay_stops(m0, s, i + 1);
                }
                return r;
            }
        }
        proof {
            assert(s.subrange(0, s.len() as int) =~= s);
        }
        Ok(())
    }

    /// Adds one journal entry: an organization gets a ledger holding its
    /// contact, any other action goes to the ledger of the organization the
    /// entry names.
    pub fn add_journal_entry(&mut self, journal_entry: JournalEntry) -> (r: Result<(), Error>)
        requires
            old(self)@.wf(),
        ensures
            final(self)@.wf(),
            (final(self)@, r) == old(self)@.apply(journal_entry),
    {
        let ghost m0 = self@;
        let ghost entry = journal_entry;
        let organization_id = journal_entry.organization_id;
        match journal_entry.action {
            Action::AddOrganization { contact, organization } => {
                if self.ledger_map.contains_key(&organization_id) {
                    proof {
                        assert(m0.ledgers.contains_key(organization_id));
                    }
                    return Err(Error::OrganizationExists(organization_id));
                }
                let mut ledger = Ledger::new();
                let ghost c = contact;
                let added = ledger.add_contact(contact);
                self.organization_map.insert(organization_id, organization);
                self.ledger_map.insert(organization_id, ledger);
                proof {
                    assert(added is Ok);
                    let expected = LedgerModel {
                        contacts: Map::empty().insert(c.id, c),
                        ..LedgerModel::empty()
                    };
                    assert(ledger@.contacts =~= expected.contacts);
                    assert(self@.ledgers =~= m0.ledgers.insert(organization_id, expected));
                    assert forall|k: OrganizationId| #[trigger]
                        self@.ledgers.contains_key(k) implies self@.ledgers[k].wf() by {
                        if k != organization_id {
                            assert(m0.ledgers.contains_key(k));
                        }
                    }
                    assert(self@.organizations == m0.organizations.insert(
                        organization_id,
                        entry.action->organization,
                    ));
                }
                added
            },
            action => {
                let ghost a = action;
                match self.ledger_map.remove(&organization_id) {
                    None => {
                        proof {
                            assert(self.ledger_map@ =~= old(self).ledger_map@);
                            assert(self@.ledgers =~= m0.ledgers);
                        }
                        Err(Error::MissingOrganization(organization_id))
                    },
                    Some(mut ledger) => {
                        proof {
                            assert(m0.ledgers.contains_key(organization_id));
                            assert(ledger@ == m0.ledgers[organization_id]);
                        }
                        let r = ledger.apply_action(action);
                        self.ledger_map.insert(organization_id, ledger);
                        proof {
                            assert(self@.ledgers =~= m0.ledgers.insert(
                                organization_id,
                                m0.ledgers[organization_id].apply_action(a).0,
                            ));
                            assert forall|k: OrganizationId| #[trigger]
                                self@.ledgers.contains_key(k) implies self@.ledgers[k].wf() by {
                                if k != organization_id {
                                    assert(m0.ledgers.contains_key(k));
                                }
                            }
                            assert(self@ == m0.apply(entry).0);
                        }
                        r
                    },
                }
            },
        }
    }
}

} // verus!
