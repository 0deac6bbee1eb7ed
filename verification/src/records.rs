//! The authorization records of the broker, one for each account selector that
//! it has been asked to authorize.
use crate::account::Account;
use crate::clock::{min_int, remaining};
use vstd::prelude::*;

verus! {

/// How long the broker waits for messages when no record asks for attention,
/// in nanoseconds.
pub const IDLE_WAIT: u64 = 100_000_000;

/// A grant: when it began, when it ends at the latest, and when it is checked
/// next. Instants on the wall are nanoseconds from the Unix epoch, deadlines
/// are nanoseconds on the monotonic clock.
#[derive(Clone, Copy, Debug, PartialEq, Eq, Structural)]
pub struct ActiveAuthorization {
    pub authorized_at: i128,
    pub hard_expires_at: i128,
    pub hard_deadline: u64,
    pub next_probe_at: i128,
    pub next_probe_deadline: u64,
}

/// Whether an account is authorized.
#[derive(Clone, Copy, Debug, PartialEq, Eq, Structural)]
pub enum AuthorizationRecord {
    Required,
    Active(ActiveAuthorization),
}

impl AuthorizationRecord {
    /// The record at a later instant: a grant ends at its hard deadline.
    pub open spec fn at(self, now: u64) -> AuthorizationRecord {
        match self {
            AuthorizationRecord::Active(active) if now >= active.hard_deadline => {
                AuthorizationRecord::Required
            },
            _ => self,
        }
    }

    /// Whether the grant is to be checked.
    pub open spec fn is_due(self, now: u64) -> bool {
        self matches AuthorizationRecord::Active(active) && now >= active.next_probe_deadline
    }

    /// When the grant asks for attention.
    pub open spec fn attention(self) -> Option<int> {
        match self {
            AuthorizationRecord::Active(active) => Some(
                min_int(active.next_probe_deadline as int, active.hard_deadline as int),
            ),
            AuthorizationRecord::Required => None,
        }
    }
}

/// Records by account selector.
pub type RecordMap = Map<Option<Seq<char>>, AuthorizationRecord>;

/// The records at a later instant.
pub open spec fn expired(records: RecordMap, now: u64) -> RecordMap {
    records.map_values(|record: AuthorizationRecord| record.at(now))
}

/// The records after a failed check: every account is to be authorized again.
pub open spec fn invalidated(records: RecordMap) -> RecordMap {
    records.map_values(|record: AuthorizationRecord| AuthorizationRecord::Required)
}

/// Whether an account is authorized.
pub open spec fn is_active(records: RecordMap, account: Option<Seq<char>>) -> bool {
    records.dom().contains(account) && records[account] is Active
}

/// The records of a broker.
#[derive(Debug)]
pub struct Records {
    entries: Vec<(Account, AuthorizationRecord)>,
}

/// Where an account stands in a list of records.
spec fn stands(entries: Seq<(Account, AuthorizationRecord)>, key: Option<Seq<char>>, i: int) -> bool {
    0 <= i < entries.len() && entries[i].0@ == key
}

/// The records in a list, by account.
spec fn listed(entries: Seq<(Account, AuthorizationRecord)>) -> RecordMap {
    Map::new(
        |key: Option<Seq<char>>| exists|i: int| stands(entries, key, i),
        |key: Option<Seq<char>>| entries[choose|i: int| stands(entries, key, i)].1,
    )
}

/// No account stands in a list twice.
spec fn unique(entries: Seq<(Account, AuthorizationRecord)>) -> bool {
    forall|i: int, j: int|
        0 <= i < j < entries.len() ==> (#[trigger] entries[i]).0@ != (#[trigger] entries[j]).0@
}

impl View for Records {
    type V = RecordMap;

    closed spec fn view(&self) -> RecordMap {
        listed(self.entries@)
    }
}

proof fn lemma_listed(entries: Seq<(Account, AuthorizationRecord)>, i: int)
    requires
        unique(entries),
        0 <= i < entries.len(),
    ensures
        listed(entries).dom().contains(entries[i].0@),
        listed(entries)[entries[i].0@] == entries[i].1,
{
    let key = entries[i].0@;
    assert(stands(entries, key, i));
    let j = choose|j: int| stands(entries, key, j);
    assert(stands(entries, key, j));
    assert(i == j);
}

/// Two lists of the same accounts in the same places hold the same records
/// where their entries agree.
proof fn lemma_mapped(
    before: Seq<(Account, AuthorizationRecord)>,
    after: Seq<(Account, AuthorizationRecord)>,
    f: spec_fn(AuthorizationRecord) -> AuthorizationRecord,
)
    requires
        unique(before),
        after.len() == before.len(),
        forall|i: int|
            0 <= i < before.len() ==> (#[trigger] after[i]).0@ == before[i].0@ && after[i].1 == f(
                before[i].1,
            ),
    ensures
        unique(after),
        listed(after) == listed(before).map_values(f),
{
    assert(unique(after)) by {
        assert forall|i: int, j: int| 0 <= i < j < after.len() implies (#[trigger] after[i]).0@ != (
        #[trigger] after[j]).0@ by {
            assert(before[i].0@ != before[j].0@);
        }
    }
    let mapped = listed(before).map_values(f);
    assert forall|key: Option<Seq<char>>| #[trigger]
        listed(after).dom().contains(key) == mapped.dom().contains(key) by {
        if listed(after).dom().contains(key) {
            let i = choose|i: int| stands(after, key, i);
            assert(after[i].0@ == before[i].0@);
            assert(stands(before, key, i));
        }
        if mapped.dom().contains(key) {
            let i = choose|i: int| stands(before, key, i);
            assert(after[i].0@ == before[i].0@);
            assert(stands(after, key, i));
        }
    }
    assert forall|key: Option<Seq<char>>| #[trigger]
        listed(after).dom().contains(key) implies listed(after)[key] == mapped[key] by {
        let i = choose|i: int| stands(after, key, i);
        assert(after[i].0@ == before[i].0@);
        lemma_listed(after, i);
        lemma_listed(before, i);
    }
    assert(listed(after) =~= mapped);
}

impl Records {
    /// No account has two records.
    pub closed spec fn wf(&self) -> bool {
        unique(self.entries@)
    }

    /// No records.
    pub fn new() -> (records: Self)
        ensures
            records.wf(),
            records@ == RecordMap::empty(),
    {
        let records = Records { entries: Vec::new() };
        assert(records@ =~= RecordMap::empty());
        records
    }

    /// Where an account's record stands, if it has one.
    fn position(&self, account: &Account) -> (position: Option<usize>)
        ensures
            match position {
                Some(index) => stands(self.entries@, account@, index as int),
                None => forall|i: int| !stands(self.entries@, account@, i),
            },
    {
        let mut index: usize = 0;
        while index < self.entries.len()
            invariant
                index <= self.entries.len(),
                forall|i: int| 0 <= i < index ==> (#[trigger] self.entries@[i]).0@ != account@,
            decreases self.entries.len() - index,
        {
            if self.entries[index].0.same(account) {
                return Some(index);
            }
            index = index + 1;
        }
        None
    }

    /// The record of an account.
    pub fn get(&self, account: &Account) -> (record: Option<AuthorizationRecord>)
        requires
            self.wf(),
        ensures
            record == (if self@.dom().contains(account@) {
                Some(self@[account@])
            } else {
                None
            }),
    {
        match self.position(account) {
            Some(index) => {
                proof {
                    lemma_listed(self.entries@, index as int);
                }
                Some(self.entries[index].1)
            },
            None => None,
        }
    }

    /// Whether an account is authorized.
    pub fn is_active(&self, account: &Account) -> (active: bool)
        requires
            self.wf(),
        ensures
            active == is_active(self@, account@),
    {
        match self.get(account) {
            Some(AuthorizationRecord::Active(_)) => true,
            _ => false,
        }
    }

    /// Gives an account a record, in place of the one it has.
    pub fn insert(&mut self, account: Account, record: AuthorizationRecord)
        requires
            old(self).wf(),
        ensures
            final(self).wf(),
            final(self)@ == old(self)@.insert(account@, record),
    {
        let ghost before = self.entries@;
        match self.position(&account) {
            Some(index) => {
                self.entries.set(index, (account, record));
                proof {
                    lemma_replaced(before, self.entries@, index as int);
                }
            },
            None => {
                self.entries.push((account, record));
                proof {
                    assert(self.entries@.drop_last() =~= before);
                    lemma_added(before, self.entries@);
                }
            },
        }
    }

    /// Ends the grants whose hard deadline has come.
    pub fn expire(&mut self, now: u64)
        requires
            old(self).wf(),
        ensures
            final(self).wf(),
            final(self)@ == expired(old(self)@, now),
    {
        let ghost before = self.entries@;
        let mut index: usize = 0;
        while index < self.entries.len()
            invariant
                index <= self.entries.len(),
                before == old(self).entries@,
                self.entries.len() == before.len(),
                forall|i: int|
                    index <= i < before.len() ==> #[trigger] self.entries@[i] == before[i],
                forall|i: int|
                    0 <= i < index ==> (#[trigger] self.entries@[i]).0@ == before[i].0@
                        && self.entries@[i].1 == before[i].1.at(now),
            decreases self.entries.len() - index,
        {
            let over = match self.entries[index].1 {
                AuthorizationRecord::Active(active) => now >= active.hard_deadline,
                AuthorizationRecord::Required => false,
            };
            if over {
                let account = self.entries[index].0.clone();
                self.entries.set(index, (account, AuthorizationRecord::Required));
            }
            index = index + 1;
        }
        proof {
            lemma_mapped(before, self.entries@, |record: AuthorizationRecord| record.at(now));
        }
    }

    /// Ends every grant.
    pub fn invalidate_all(&mut self)
        requires
            old(self).wf(),
        ensures
            final(self).wf(),
            final(self)@ == invalidated(old(self)@),
    {
        let ghost before = self.entries@;
        let mut index: usize = 0;
        while index < self.entries.len()
            invariant
                index <= self.entries.len(),
                before == old(self).entries@,
                self.entries.len() == before.len(),
                forall|i: int|
                    index <= i < before.len() ==> #[trigger] self.entries@[i] == before[i],
                forall|i: int|
                    0 <= i < index ==> (#[trigger] self.entries@[i]).0@ == before[i].0@
                        && self.entries@[i].1 == AuthorizationRecord::Required,
            decreases self.entries.len() - index,
        {
            let account = self.entries[index].0.clone();
            self.entries.set(index, (account, AuthorizationRecord::Required));
            index = index + 1;
        }
        proof {
            lemma_mapped(
                before,
                self.entries@,
                |record: AuthorizationRecord| AuthorizationRecord::Required,
            );
        }
    }

    /// Forgets every account.
    pub fn clear(&mut self)
        ensures
            final(self).wf(),
            final(self)@ == RecordMap::empty(),
    {
        self.entries = Vec::new();
        assert(self@ =~= RecordMap::empty());
    }

    /// An account whose grant is to be checked, if there is one.
    pub fn due_maintenance(&self, now: u64) -> (account: Option<Account>)
        requires
            self.wf(),
        ensures
            match account {
                Some(account) => self@.dom().contains(account@) && self@[account@].is_due(now),
                None => forall|key: Option<Seq<char>>| #[trigger]
                    self@.dom().contains(key) ==> !self@[key].is_due(now),
            },
    {
        let mut index: usize = 0;
        while index < self.entries.len()
            invariant
                self.wf(),
                index <= self.entries.len(),
                forall|i: int| 0 <= i < index ==> !(#[trigger] self.entries@[i]).1.is_due(now),
            decreases self.entries.len() - index,
        {
            let due = match self.entries[index].1 {
                AuthorizationRecord::Active(active) => now >= active.next_probe_deadline,
                AuthorizationRecord::Required => false,
            };
            if due {
                proof {
                    lemma_listed(self.entries@, index as int);
                }
                return Some(self.entries[index].0.clone());
            }
            index = index + 1;
        }
        proof {
            assert forall|key: Option<Seq<char>>| #[trigger]
                self@.dom().contains(key) implies !self@[key].is_due(now) by {
                let i = choose|i: int| stands(self.entries@, key, i);
                lemma_listed(self.entries@, i);
            }
        }
        None
    }

    /// The nanoseconds until the first grant asks for attention, or the idle
    /// wait where there is none.
    pub fn next_wait(&self, now: u64) -> (wait: u64)
        requires
            self.wf(),
        ensures
            (forall|key: Option<Seq<char>>| #[trigger]
                self@.dom().contains(key) ==> self@[key].attention() is None) ==> wait
                == IDLE_WAIT,
            forall|key: Option<Seq<char>>| #[trigger]
                self@.dom().contains(key) && self@[key].attention() is Some ==> wait <= time_left(
                    now,
                    self@[key].attention()->0,
                ),
            (exists|key: Option<Seq<char>>| #[trigger]
                self@.dom().contains(key) && self@[key].attention() is Some) ==> exists|
                key: Option<Seq<char>>,
            | #[trigger]
                self@.dom().contains(key) && self@[key].attention() is Some && wait == time_left(
                    now,
                    self@[key].attention()->0,
                ),
    {
        let mut first: Option<u64> = None;
        let mut index: usize = 0;
        let ghost mut found: int = 0;
        while index < self.entries.len()
            invariant
                index <= self.entries.len(),
                match first {
                    Some(deadline) => 0 <= found < index && self.entries@[found].1.attention()
                        == Some(deadline as int),
                    None => true,
                },
                forall|i: int|
                    0 <= i < index && (#[trigger] self.entries@[i]).1.attention() is Some
                        ==> first is Some && first->0 <= self.entries@[i].1.attention()->0,
            decreases self.entries.len() - index,
        {
            if let AuthorizationRecord::Active(active) = self.entries[index].1 {
                let deadline = if active.next_probe_deadline <= active.hard_deadline {
                    active.next_probe_deadline
                } else {
                    active.hard_deadline
                };
                let earlier = match first {
                    Some(current) => deadline < current,
                    None => true,
                };
                if earlier {
                    first = Some(deadline);
                    proof {
                        found = index as int;
                    }
                }
            }
            index = index + 1;
        }
        proof {
            assert forall|key: Option<Seq<char>>| #[trigger]
                self@.dom().contains(key) && self@[key].attention() is Some implies first is Some
                && first->0 <= self@[key].attention()->0 by {
                let i = choose|i: int| stands(self.entries@, key, i);
                lemma_listed(self.entries@, i);
                assert(self.entries@[i].1.attention() is Some);
            }
            if first is Some {
                lemma_listed(self.entries@, found);
                let key = self.entries@[found].0@;
                assert(self@.dom().contains(key));
            }
        }
        match first {
            Some(deadline) => remaining(now, deadline),
            None => IDLE_WAIT,
        }
    }
}

/// The time from one instant to another, or none once it has come.
pub open spec fn time_left(now: u64, deadline: int) -> int {
    if now < deadline {
        deadline - now
    } else {
        0
    }
}

/// An account is authorized from its grant until the grant's hard deadline: a
/// grant whose deadline has come is gone, every other record stays as it is,
/// and no account appears or is forgotten.
pub proof fn grants_end_at_their_deadline(
    records: RecordMap,
    account: Option<Seq<char>>,
    now: u64,
)
    ensures
        expired(records, now).dom().contains(account) <==> records.dom().contains(account),
        records.dom().contains(account) ==> match records[account] {
            AuthorizationRecord::Required => expired(records, now)[account]
                == AuthorizationRecord::Required,
            AuthorizationRecord::Active(grant) => if now < grant.hard_deadline {
                expired(records, now)[account] == AuthorizationRecord::Active(grant)
            } else {
                expired(records, now)[account] == AuthorizationRecord::Required
            },
        },
        is_active(records, account) <==> exists|grant: ActiveAuthorization|
            records.dom().contains(account) && records[account] == AuthorizationRecord::Active(
                grant,
            ),
{
    if is_active(records, account) {
        let grant = records[account]->Active_0;
        assert(records[account] == AuthorizationRecord::Active(grant));
    }
}

/// When all grants are ended, every account that was known is to be authorized
/// again, and stays known.
pub proof fn ending_all_grants_spares_none(records: RecordMap, account: Option<Seq<char>>)
    ensures
        invalidated(records).dom().contains(account) <==> records.dom().contains(account),
        records.dom().contains(account) ==> invalidated(records)[account]
            == AuthorizationRecord::Required,
{
}

/// A grant is due at its next check, and asks for attention at that or at its
/// hard deadline, whichever is first. An account without a grant never does.
pub proof fn grants_ask_for_attention(grant: ActiveAuthorization, now: u64)
    ensures
        AuthorizationRecord::Active(grant).is_due(now) <==> grant.next_probe_deadline <= now,
        !AuthorizationRecord::Required.is_due(now),
        AuthorizationRecord::Active(grant).attention() == Some(
            if grant.hard_deadline < grant.next_probe_deadline {
                grant.hard_deadline as int
            } else {
                grant.next_probe_deadline as int
            },
        ),
        AuthorizationRecord::Required.attention() is None,
        forall|deadline: int|
            now <= deadline ==> #[trigger] time_left(now, deadline) == deadline - now,
        forall|deadline: int| deadline <= now ==> #[trigger] time_left(now, deadline) == 0,
{
}

proof fn lemma_replaced(
    before: Seq<(Account, AuthorizationRecord)>,
    after: Seq<(Account, AuthorizationRecord)>,
    index: int,
)
    requires
        unique(before),
        0 <= index < before.len(),
        after == before.update(index, after[index]),
        after[index].0@ == before[index].0@,
    ensures
        unique(after),
        listed(after) == listed(before).insert(after[index].0@, after[index].1),
{
    let key = after[index].0@;
    let inserted = listed(before).insert(key, after[index].1);
    assert(unique(after)) by {
        assert forall|i: int, j: int| 0 <= i < j < after.len() implies (#[trigger] after[i]).0@ != (
        #[trigger] after[j]).0@ by {
            assert(before[i].0@ != before[j].0@);
        }
    }
    assert forall|k: Option<Seq<char>>| #[trigger]
        listed(after).dom().contains(k) == inserted.dom().contains(k) by {
        if listed(after).dom().contains(k) {
            let i = choose|i: int| stands(after, k, i);
            assert(stands(before, k, i));
        }
        if listed(before).dom().contains(k) {
            let i = choose|i: int| stands(before, k, i);
            assert(stands(after, k, i));
        }
        assert(stands(after, key, index));
    }
    assert forall|k: Option<Seq<char>>| #[trigger]
        listed(after).dom().contains(k) implies listed(after)[k] == inserted[k] by {
        let i = choose|i: int| stands(after, k, i);
        lemma_listed(after, i);
        if i != index {
            lemma_listed(before, i);
            assert(k != key);
        }
    }
    assert(listed(after) =~= inserted);
}

proof fn lemma_added(
    before: Seq<(Account, AuthorizationRecord)>,
    after: Seq<(Account, AuthorizationRecord)>,
)
    requires
        unique(before),
        after.len() == before.len() + 1,
        after.drop_last() == before,
        forall|i: int| !stands(before, after.last().0@, i),
    ensures
        unique(after),
        listed(after) == listed(before).insert(after.last().0@, after.last().1),
{
    let key = after.last().0@;
    let inserted = listed(before).insert(key, after.last().1);
    assert forall|i: int| 0 <= i < before.len() implies #[trigger] after[i] == before[i] by {
        assert(after.drop_last()[i] == after[i]);
    }
    assert(unique(after)) by {
        assert forall|i: int, j: int| 0 <= i < j < after.len() implies (#[trigger] after[i]).0@ != (
        #[trigger] after[j]).0@ by {
            assert(!stands(before, key, i));
            assert(after[i] == before[i]);
            if j < before.len() {
                assert(after[j] == before[j]);
            }
        }
    }
    assert forall|k: Option<Seq<char>>| #[trigger]
        listed(after).dom().contains(k) == inserted.dom().contains(k) by {
        if listed(after).dom().contains(k) {
            let i = choose|i: int| stands(after, k, i);
            if i < before.len() {
                assert(stands(before, k, i));
            }
        }
        if listed(before).dom().contains(k) {
            let i = choose|i: int| stands(before, k, i);
            assert(stands(after, k, i));
        }
        assert(stands(after, key, before.len() as int));
    }
    assert forall|k: Option<Seq<char>>| #[trigger]
        listed(after).dom().contains(k) implies listed(after)[k] == inserted[k] by {
        let i = choose|i: int| stands(after, k, i);
        lemma_listed(after, i);
        if i < before.len() {
            lemma_listed(before, i);
            assert(stands(before, k, i));
        }
    }
    assert(listed(after) =~= inserted);
}

} // verus!
