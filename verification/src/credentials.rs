//! The credential set: application names with their login details.
//!
//! A set is held as a list of entries in which no name occurs twice. Its
//! contracts are stated over the sequence of [`Record`]s that the entries
//! stand for, and over the map from names to details that the sequence
//! spells out.

use vstd::prelude::*;

use crate::error::EmptyName;
use crate::text::same_text;

verus! {

/// The login and the secret of one account.
#[derive(Clone, Debug, PartialEq, Eq)]
pub struct AccountDetails {
    pub login: String,
    pub secret: String,
}

/// What the contracts see of an [`AccountDetails`].
pub ghost struct AccountView {
    pub login: Seq<char>,
    pub secret: Seq<char>,
}

impl View for AccountDetails {
    type V = AccountView;

    open spec fn view(&self) -> AccountView {
        AccountView { login: self.login@, secret: self.secret@ }
    }
}

/// One entry of a credential set.
#[derive(Clone, Debug, PartialEq, Eq)]
pub struct Entry {
    pub name: String,
    pub details: AccountDetails,
}

/// What the contracts see of an [`Entry`].
pub ghost struct Record {
    pub name: Seq<char>,
    pub login: Seq<char>,
    pub secret: Seq<char>,
}

impl Record {
    /// The record's login and secret.
    pub open spec fn details(self) -> AccountView {
        AccountView { login: self.login, secret: self.secret }
    }

    /// The record of `name` with `details`.
    pub open spec fn of(name: Seq<char>, details: AccountView) -> Record {
        Record { name, login: details.login, secret: details.secret }
    }
}

impl View for Entry {
    type V = Record;

    open spec fn view(&self) -> Record {
        Record { name: self.name@, login: self.details.login@, secret: self.details.secret@ }
    }
}

/// The records that a list of entries stands for, in the same order.
pub open spec fn records_of(entries: Seq<Entry>) -> Seq<Record> {
    entries.map_values(|e: Entry| e@)
}

/// Whether some record carries `name`.
pub open spec fn holds(records: Seq<Record>, name: Seq<char>) -> bool {
    exists|i: int| 0 <= i < records.len() && (#[trigger] records[i]).name == name
}

/// The place of a record that carries `name`, where there is one.
pub open spec fn slot(records: Seq<Record>, name: Seq<char>) -> int {
    choose|i: int| 0 <= i < records.len() && (#[trigger] records[i]).name == name
}

/// The details stored under `name`, if any.
pub open spec fn lookup(records: Seq<Record>, name: Seq<char>) -> Option<AccountView> {
    if holds(records, name) {
        Some(records[slot(records, name)].details())
    } else {
        None
    }
}

/// No two records carry the same name.
pub open spec fn names_unique(records: Seq<Record>) -> bool {
    forall|i: int, j: int|
        0 <= i < j < records.len() ==> (#[trigger] records[i]).name != (#[trigger] records[j]).name
}

/// The records of a valid set: every name is non-empty and occurs once.
pub open spec fn records_ok(records: Seq<Record>) -> bool {
    &&& names_unique(records)
    &&& forall|i: int| 0 <= i < records.len() ==> (#[trigger] records[i]).name.len() > 0
}

/// The records after `record` is stored: it takes the place of the record
/// with its name, or comes last where there was none.
pub open spec fn put(records: Seq<Record>, record: Record) -> Seq<Record> {
    if holds(records, record.name) {
        records.update(slot(records, record.name), record)
    } else {
        records.push(record)
    }
}

/// The records after an attempt to store `record`: a record with the empty
/// name is not stored, any other is put in.
pub open spec fn stored(records: Seq<Record>, record: Record) -> Seq<Record> {
    if record.name.len() == 0 {
        records
    } else {
        put(records, record)
    }
}

/// The records after the one that carries `name` is taken out.
pub open spec fn without(records: Seq<Record>, name: Seq<char>) -> Seq<Record> {
    if holds(records, name) {
        records.remove(slot(records, name))
    } else {
        records
    }
}

/// The mapping from names to details that the records spell out.
pub open spec fn as_map(records: Seq<Record>) -> Map<Seq<char>, AccountView> {
    Map::new(
        |name: Seq<char>| holds(records, name),
        |name: Seq<char>| records[slot(records, name)].details(),
    )
}

/// In records with unique names, a record's place is the slot of its name.
pub proof fn lemma_slot_is_place(records: Seq<Record>, i: int)
    requires
        names_unique(records),
        0 <= i < records.len(),
    ensures
        holds(records, records[i].name),
        slot(records, records[i].name) == i,
{
    let name = records[i].name;
    let s = slot(records, name);
    assert(0 <= s < records.len() && records[s].name == name);
    if s < i {
        assert(records[s].name != records[i].name);
    } else if i < s {
        assert(records[i].name != records[s].name);
    }
}

/// Storing a record under a non-empty name keeps the records valid.
pub proof fn lemma_put_keeps_ok(records: Seq<Record>, record: Record)
    requires
        records_ok(records),
        record.name.len() > 0,
    ensures
        records_ok(put(records, record)),
{
    let after = put(records, record);
    lemma_put_keeps_unique(records, record);
    assert forall|i: int| 0 <= i < after.len() implies (#[trigger] after[i]).name.len() > 0 by {
        if i < records.len() && after[i] != record {
            assert(after[i] == records[i]);
        }
    }
}

/// An attempt to store a record, whatever its name, keeps the records valid.
pub proof fn lemma_stored_keeps_ok(records: Seq<Record>, record: Record)
    requires
        records_ok(records),
    ensures
        records_ok(stored(records, record)),
{
    if record.name.len() > 0 {
        lemma_put_keeps_ok(records, record);
    }
}

/// Storing a record is an insertion into the mapping.
pub proof fn lemma_put_is_insert(records: Seq<Record>, record: Record)
    requires
        names_unique(records),
    ensures
        as_map(put(records, record)) == as_map(records).insert(record.name, record.details()),
{
    let after = put(records, record);
    let want = as_map(records).insert(record.name, record.details());
    lemma_put_keeps_unique(records, record);
    assert forall|name: Seq<char>| holds(after, name) <==> want.dom().contains(name) by {
        if holds(after, name) {
            let i = slot(after, name);
            if after[i] != record {
                assert(records[i].name == name);
            }
        }
        if want.dom().contains(name) {
            if name == record.name {
                if holds(records, record.name) {
                    assert(after[slot(records, record.name)].name == name);
                } else {
                    assert(after[records.len() as int].name == name);
                }
            } else {
                let i = slot(records, name);
                assert(after[i].name == name);
            }
        }
    }
    assert forall|name: Seq<char>| holds(after, name) implies #[trigger] as_map(after)[name]
        == want[name] by {
        let i = slot(after, name);
        if name == record.name {
            if holds(records, record.name) {
                let s = slot(records, record.name);
                assert(after[s].name == name);
                lemma_slot_is_place(after, s);
            } else {
                assert(after[records.len() as int].name == name);
                lemma_slot_is_place(after, records.len() as int);
            }
        } else {
            assert(after[i].name == name);
            assert(records[i].name == name);
            lemma_slot_is_place(records, i);
        }
    }
    assert(as_map(after) =~= want);
}

/// Storing a record keeps the names unique.
pub proof fn lemma_put_keeps_unique(records: Seq<Record>, record: Record)
    requires
        names_unique(records),
    ensures
        names_unique(put(records, record)),
{
    let after = put(records, record);
    if holds(records, record.name) {
        assert forall|i: int, j: int| 0 <= i < j < after.len() implies (#[trigger] after[i]).name
            != (#[trigger] after[j]).name by {
            assert(after[i].name == records[i].name);
            assert(after[j].name == records[j].name);
        }
    } else {
        assert forall|i: int, j: int| 0 <= i < j < after.len() implies (#[trigger] after[i]).name
            != (#[trigger] after[j]).name by {
            assert(after[i] == records[i]);
            if j < records.len() {
                assert(after[j] == records[j]);
            }
        }
    }
}

/// Taking a record out keeps the names unique.
pub proof fn lemma_without_keeps_unique(records: Seq<Record>, name: Seq<char>)
    requires
        names_unique(records),
    ensures
        names_unique(without(records, name)),
{
    let after = without(records, name);
    if holds(records, name) {
        let s = slot(records, name);
        assert forall|i: int, j: int| 0 <= i < j < after.len() implies (#[trigger] after[i]).name
            != (#[trigger] after[j]).name by {
            let oi = if i < s { i } else { i + 1 };
            let oj = if j < s { j } else { j + 1 };
            assert(after[i] == records[oi]);
            assert(after[j] == records[oj]);
        }
    }
}

/// Taking a record out keeps the records valid.
pub proof fn lemma_without_keeps_ok(records: Seq<Record>, name: Seq<char>)
    requires
        records_ok(records),
    ensures
        records_ok(without(records, name)),
{
    let after = without(records, name);
    lemma_without_keeps_unique(records, name);
    if holds(records, name) {
        let s = slot(records, name);
        assert forall|i: int| 0 <= i < after.len() implies (#[trigger] after[i]).name.len()
            > 0 by {
            let oi = if i < s { i } else { i + 1 };
            assert(after[i] == records[oi]);
        }
    }
}

/// Taking a record out removes its name from the mapping.
pub proof fn lemma_without_is_remove(records: Seq<Record>, name: Seq<char>)
    requires
        names_unique(records),
    ensures
        as_map(without(records, name)) == as_map(records).remove(name),
{
    let after = without(records, name);
    let want = as_map(records).remove(name);
    lemma_without_keeps_unique(records, name);
    if holds(records, name) {
        let s = slot(records, name);
        assert forall|other: Seq<char>| holds(after, other) <==> want.dom().contains(other) by {
            if holds(after, other) {
                let i = slot(after, other);
                let oi = if i < s { i } else { i + 1 };
                assert(after[i] == records[oi]);
                assert(records[oi].name == other);
                if other == name {
                    lemma_slot_is_place(records, oi);
                }
            }
            if want.dom().contains(other) {
                let oi = slot(records, other);
                let i = if oi < s { oi } else { oi - 1 };
                assert(after[i] == records[oi]);
            }
        }
        assert forall|other: Seq<char>| holds(after, other) implies #[trigger] as_map(after)[other]
            == want[other] by {
            let i = slot(after, other);
            let oi = if i < s { i } else { i + 1 };
            assert(after[i] == records[oi]);
            lemma_slot_is_place(records, oi);
        }
        assert(as_map(after) =~= want);
    } else {
        assert(as_map(after) =~= want);
    }
}

/// Storing twice under one name overwrites and never duplicates: the list is
/// no longer than after the first store, it holds exactly one record of that
/// name, which is the second, and the mapping is what the second store alone
/// would have left.
pub proof fn lemma_put_twice(records: Seq<Record>, first: Record, second: Record)
    requires
        names_unique(records),
        first.name == second.name,
    ensures
        ({
            let once = put(records, first);
            let twice = put(once, second);
            &&& twice.len() == once.len()
            &&& names_unique(twice)
            &&& as_map(twice) == as_map(put(records, second))
            &&& lookup(twice, second.name) == Some(second.details())
            &&& exists|i: int|
                {
                    &&& 0 <= i < twice.len()
                    &&& #[trigger] twice[i] == second
                    &&& forall|j: int|
                        0 <= j < twice.len() && j != i ==> (#[trigger] twice[j]).name
                            != second.name
                }
        }),
{
    let once = put(records, first);
    let twice = put(once, second);
    lemma_put_keeps_unique(records, first);
    lemma_put_keeps_unique(once, second);
    let at = if holds(records, first.name) {
        slot(records, first.name)
    } else {
        records.len() as int
    };
    assert(once[at] == first);
    lemma_slot_is_place(once, at);
    assert(twice == once.update(at, second));
    assert(twice[at] == second);
    assert forall|j: int| 0 <= j < twice.len() && j != at implies (#[trigger] twice[j]).name
        != second.name by {
        if j < at {
            assert(twice[j].name != twice[at].name);
        } else {
            assert(twice[at].name != twice[j].name);
        }
    }
    lemma_put_is_insert(records, first);
    lemma_put_is_insert(once, second);
    lemma_put_is_insert(records, second);
    assert(as_map(twice) =~= as_map(put(records, second)));
    lemma_slot_is_place(twice, at);
}

/// A set of credentials: application names, each with its account details.
/// No name is empty and none occurs twice.
pub struct CredentialSet {
    entries: Vec<Entry>,
}

impl View for CredentialSet {
    type V = Map<Seq<char>, AccountView>;

    open spec fn view(&self) -> Map<Seq<char>, AccountView> {
        as_map(self.records())
    }
}

/// The place of the entry that carries `name`, if there is one.
fn locate(entries: &Vec<Entry>, name: &str) -> (place: Option<usize>)
    ensures
        match place {
            Some(i) => i < entries@.len() && entries@[i as int].name@ == name@,
            None => forall|j: int| 0 <= j < entries@.len() ==> entries@[j].name@ != name@,
        },
{
    let mut i: usize = 0;
    while i < entries.len()
        invariant
            i <= entries@.len(),
            forall|j: int| 0 <= j < i ==> entries@[j].name@ != name@,
        decreases entries@.len() - i,
    {
        if same_text(entries[i].name.as_str(), name) {
            return Some(i);
        }
        i += 1;
    }
    None
}

impl CredentialSet {
    /// The set's records, in the order in which their names were first added.
    pub closed spec fn records(&self) -> Seq<Record> {
        records_of(self.entries@)
    }

    #[verifier::type_invariant]
    spec fn valid(&self) -> bool {
        records_ok(self.records())
    }

    /// An empty set.
    pub fn new() -> (set: CredentialSet)
        ensures
            set.records() == Seq::<Record>::empty(),
            set@ == Map::<Seq<char>, AccountView>::empty(),
    {
        let set = CredentialSet { entries: Vec::new() };
        assert(set.records() =~= Seq::<Record>::empty());
        assert(set@ =~= Map::<Seq<char>, AccountView>::empty());
        set
    }

    /// A set of the given entries, whose names are non-empty and unique.
    pub(crate) fn from_entries(entries: Vec<Entry>) -> (set: CredentialSet)
        requires
            records_ok(records_of(entries@)),
        ensures
            set.records() == records_of(entries@),
    {
        CredentialSet { entries }
    }

    /// The number of entries.
    pub fn len(&self) -> (n: usize)
        ensures
            n == self.records().len(),
            n == self@.len(),
    {
        proof {
            use_type_invariant(self);
            lemma_map_len(self.records());
        }
        self.entries.len()
    }

    /// Whether the set has no entry.
    pub fn is_empty(&self) -> (empty: bool)
        ensures
            empty == (self.records().len() == 0),
            empty == (self@ == Map::<Seq<char>, AccountView>::empty()),
    {
        proof {
            if self.records().len() == 0 {
                assert(self@ =~= Map::<Seq<char>, AccountView>::empty());
            } else {
                assert(holds(self.records(), self.records()[0].name));
                assert(self@.dom().contains(self.records()[0].name));
            }
        }
        self.entries.len() == 0
    }

    /// The entries, in the order in which their names were first added.
    pub fn list(&self) -> (entries: &[Entry])
        ensures
            records_of(entries@) == self.records(),
            records_ok(self.records()),
    {
        proof {
            use_type_invariant(self);
        }
        self.entries.as_slice()
    }

    /// The details stored under `name`, if any.
    pub fn find(&self, name: &str) -> (found: Option<&AccountDetails>)
        ensures
            found is Some <==> self@.dom().contains(name@),
            found is Some ==> found->0@ == self@[name@],
            match found {
                Some(details) => lookup(self.records(), name@) == Some(details@),
                None => lookup(self.records(), name@) is None,
            },
    {
        proof {
            use_type_invariant(self);
        }
        match locate(&self.entries, name) {
            Some(i) => {
                proof {
                    assert(self.records()[i as int].name == name@);
                    lemma_slot_is_place(self.records(), i as int);
                }
                Some(&self.entries[i].details)
            },
            None => {
                proof {
                    if holds(self.records(), name@) {
                        let s = slot(self.records(), name@);
                        assert(self.entries@[s].name@ == name@);
                    }
                }
                None
            },
        }
    }

    /// Stores `details` under `name`. Details already stored under that name
    /// are replaced and handed back; the entry keeps its place in the list.
    /// The empty name is refused, and the set is then left as it was.
    pub fn add(&mut self, name: String, details: AccountDetails) -> (previous: Result<
        Option<AccountDetails>,
        EmptyName,
    >)
        ensures
            previous is Err <==> name@.len() == 0,
            final(self).records() == stored(old(self).records(), Record::of(name@, details@)),
            previous is Err ==> final(self)@ == old(self)@,
            previous is Ok ==> final(self)@ == old(self)@.insert(name@, details@),
            previous is Ok ==> (previous->Ok_0 is Some <==> old(self)@.dom().contains(name@)),
            previous is Ok && previous->Ok_0 is Some ==> previous->Ok_0->0@ == old(self)@[name@],
            match previous {
                Ok(Some(replaced)) => lookup(old(self).records(), name@) == Some(replaced@),
                Ok(None) => lookup(old(self).records(), name@) is None,
                Err(_) => true,
            },
    {
        if name.as_str().is_empty() {
            return Err(EmptyName);
        }
        proof {
            use_type_invariant(&*self);
            lemma_put_keeps_ok(old(self).records(), Record::of(name@, details@));
            lemma_put_is_insert(old(self).records(), Record::of(name@, details@));
        }
        let ghost before = self.records();
        let ghost record = Record::of(name@, details@);
        let mut entries: Vec<Entry> = Vec::new();
        std::mem::swap(&mut entries, &mut self.entries);
        let place = locate(&entries, name.as_str());
        let entry = Entry { name, details };
        let previous = match place {
            Some(i) => {
                proof {
                    assert(before[i as int].name == record.name);
                    lemma_slot_is_place(before, i as int);
                }
                let replaced = entries.remove(i);
                entries.insert(i, entry);
                assert(records_of(entries@) =~= before.update(i as int, record));
                Some(replaced.details)
            },
            None => {
                proof {
                    if holds(before, record.name) {
                        let s = slot(before, record.name);
                        assert(entries@[s].name@ == record.name);
                    }
                }
                entries.push(entry);
                assert(records_of(entries@) =~= before.push(record));
                None
            },
        };
        self.entries = entries;
        Ok(previous)
    }

    /// Takes out the entry stored under `name` and hands its details back.
    /// The other entries keep their order.
    pub fn remove(&mut self, name: &str) -> (removed: Option<AccountDetails>)
        ensures
            final(self).records() == without(old(self).records(), name@),
            final(self)@ == old(self)@.remove(name@),
            removed is Some <==> old(self)@.dom().contains(name@),
            removed is Some ==> removed->0@ == old(self)@[name@],
            match removed {
                Some(details) => lookup(old(self).records(), name@) == Some(details@),
                None => lookup(old(self).records(), name@) is None,
            },
    {
        proof {
            use_type_invariant(&*self);
            lemma_without_keeps_ok(old(self).records(), name@);
            lemma_without_is_remove(old(self).records(), name@);
        }
        let ghost before = self.records();
        let mut entries: Vec<Entry> = Vec::new();
        std::mem::swap(&mut entries, &mut self.entries);
        let removed = match locate(&entries, name) {
            Some(i) => {
                proof {
                    assert(before[i as int].name == name@);
                    lemma_slot_is_place(before, i as int);
                }
                let taken = entries.remove(i);
                assert(records_of(entries@) =~= before.remove(i as int));
                Some(taken.details)
            },
            None => {
                proof {
                    if holds(before, name@) {
                        let s = slot(before, name@);
                        assert(entries@[s].name@ == name@);
                    }
                }
                None
            },
        };
        self.entries = entries;
        removed
    }
}

/// Records with unique names spell out a mapping with as many names.
pub proof fn lemma_map_len(records: Seq<Record>)
    requires
        names_unique(records),
    ensures
        as_map(records).dom().finite(),
        as_map(records).len() == records.len(),
    decreases records.len(),
{
    if records.len() == 0 {
        assert(as_map(records) =~= Map::<Seq<char>, AccountView>::empty());
    } else {
        let last = records.last();
        let front = records.drop_last();
        assert forall|i: int, j: int| 0 <= i < j < front.len() implies (#[trigger] front[i]).name
            != (#[trigger] front[j]).name by {
            assert(front[i] == records[i]);
            assert(front[j] == records[j]);
        }
        lemma_map_len(front);
        if holds(front, last.name) {
            let s = slot(front, last.name);
            assert(records[s] == front[s]);
            assert(records[s].name != records[records.len() - 1].name);
        }
        assert(put(front, last) =~= records);
        lemma_put_is_insert(front, last);
        assert(!as_map(front).dom().contains(last.name));
    }
}

} // verus!
