//! The statistics store: the last published snapshot of every rule.

use vstd::prelude::*;
use crate::model::{Snapshot, Totals};

verus! {

/// One rule with the snapshot published for it last.
#[derive(Debug)]
pub struct Entry {
    rule: String,
    snapshot: Snapshot,
}

/// Whether entry `i` of `entries` belongs to `rule`.
pub closed spec fn holds(entries: Seq<Entry>, i: int, rule: Seq<char>) -> bool {
    0 <= i < entries.len() && entries[i].rule@ == rule
}

/// No rule has two entries.
pub closed spec fn distinct(entries: Seq<Entry>) -> bool {
    forall|i: int, j: int|
        0 <= i < j < entries.len() ==> #[trigger] entries[i].rule@ != #[trigger] entries[j].rule@
}

/// The mapping that `entries` stand for.
pub closed spec fn mapping(entries: Seq<Entry>) -> Map<Seq<char>, Totals> {
    Map::new(
        |rule: Seq<char>| exists|i: int| holds(entries, i, rule),
        |rule: Seq<char>| entries[choose|i: int| holds(entries, i, rule)].snapshot@,
    )
}

proof fn lemma_mapping_at(entries: Seq<Entry>, i: int)
    requires
        distinct(entries),
        0 <= i < entries.len(),
    ensures
        mapping(entries).contains_key(entries[i].rule@),
        mapping(entries)[entries[i].rule@] == entries[i].snapshot@,
{
    let rule = entries[i].rule@;
    assert(holds(entries, i, rule));
    let j = choose|j: int| holds(entries, j, rule);
    assert(holds(entries, j, rule));
    assert(j == i);
}

proof fn lemma_mapping_push(entries: Seq<Entry>, entry: Entry)
    requires
        distinct(entries),
        !mapping(entries).contains_key(entry.rule@),
    ensures
        distinct(entries.push(entry)),
        mapping(entries.push(entry)) == mapping(entries).insert(entry.rule@, entry.snapshot@),
{
    let after = entries.push(entry);
    let n = entries.len() as int;
    assert forall|i: int, j: int| 0 <= i < j < after.len() implies #[trigger] after[i].rule@
        != #[trigger] after[j].rule@ by {
        if j == n {
            assert(holds(entries, i, entries[i].rule@));
        }
    }
    let want = mapping(entries).insert(entry.rule@, entry.snapshot@);
    assert forall|rule: Seq<char>| mapping(after).contains_key(rule) <==> want.contains_key(
        rule,
    ) by {
        if mapping(after).contains_key(rule) {
            let i = choose|i: int| holds(after, i, rule);
            if i < n {
                assert(holds(entries, i, rule));
            }
        }
        if want.contains_key(rule) {
            if rule == entry.rule@ {
                assert(holds(after, n, rule));
            } else {
                let i = choose|i: int| holds(entries, i, rule);
                assert(holds(after, i, rule));
            }
        }
    }
    assert forall|rule: Seq<char>| mapping(after).contains_key(rule) implies mapping(after)[rule]
        == want[rule] by {
        let i = choose|i: int| holds(after, i, rule);
        lemma_mapping_at(after, i);
        if i < n {
            lemma_mapping_at(entries, i);
        }
    }
    assert(mapping(after) =~= want);
}

proof fn lemma_mapping_update(entries: Seq<Entry>, k: int, entry: Entry)
    requires
        distinct(entries),
        0 <= k < entries.len(),
        entries[k].rule@ == entry.rule@,
    ensures
        distinct(entries.update(k, entry)),
        mapping(entries.update(k, entry)) == mapping(entries).insert(
            entry.rule@,
            entry.snapshot@,
        ),
{
    let after = entries.update(k, entry);
    let want = mapping(entries).insert(entry.rule@, entry.snapshot@);
    assert forall|i: int, j: int| 0 <= i < j < after.len() implies #[trigger] after[i].rule@
        != #[trigger] after[j].rule@ by {
        assert(after[i].rule@ == entries[i].rule@);
        assert(after[j].rule@ == entries[j].rule@);
    }
    assert forall|rule: Seq<char>| mapping(after).contains_key(rule) <==> want.contains_key(
        rule,
    ) by {
        if mapping(after).contains_key(rule) {
            let i = choose|i: int| holds(after, i, rule);
            assert(holds(entries, i, rule));
        }
        if want.contains_key(rule) {
            if rule == entry.rule@ {
                assert(holds(after, k, rule));
            } else {
                let i = choose|i: int| holds(entries, i, rule);
                assert(holds(after, i, rule));
            }
        }
    }
    assert forall|rule: Seq<char>| mapping(after).contains_key(rule) implies mapping(after)[rule]
        == want[rule] by {
        let i = choose|i: int| holds(after, i, rule);
        lemma_mapping_at(after, i);
        if i != k {
            lemma_mapping_at(entries, i);
        }
    }
    assert(mapping(after) =~= want);
}

proof fn lemma_mapping_len(entries: Seq<Entry>)
    requires
        distinct(entries),
    ensures
        mapping(entries).dom().finite(),
        mapping(entries).len() == entries.len(),
    decreases entries.len(),
{
    if entries.len() == 0 {
        assert forall|rule: Seq<char>| !mapping(entries).contains_key(rule) by {
            if mapping(entries).contains_key(rule) {
                let i = choose|i: int| holds(entries, i, rule);
                assert(holds(entries, i, rule));
            }
        }
        assert(mapping(entries) =~= Map::empty());
    } else {
        let front = entries.drop_last();
        let last = entries.last();
        assert(distinct(front)) by {
            assert forall|i: int, j: int| 0 <= i < j < front.len() implies #[trigger] front[i].rule@
                != #[trigger] front[j].rule@ by {
                assert(front[i].rule@ == entries[i].rule@);
                assert(front[j].rule@ == entries[j].rule@);
            }
        }
        lemma_mapping_len(front);
        assert(!mapping(front).contains_key(last.rule@)) by {
            if mapping(front).contains_key(last.rule@) {
                let i = choose|i: int| holds(front, i, last.rule@);
                assert(holds(front, i, last.rule@));
                assert(entries[i].rule@ == front[i].rule@);
                assert(entries[entries.len() - 1].rule@ == last.rule@);
            }
        }
        lemma_mapping_push(front, last);
        assert(front.push(last) =~= entries);
    }
}

/// The last published snapshot of every rule.
#[derive(Debug)]
pub struct StatsStore {
    entries: Vec<Entry>,
}

impl View for StatsStore {
    type V = Map<Seq<char>, Totals>;

    closed spec fn view(&self) -> Map<Seq<char>, Totals> {
        mapping(self.entries@)
    }
}

impl StatsStore {
    /// Every rule has at most one entry.
    pub closed spec fn wf(&self) -> bool {
        distinct(self.entries@)
    }

    /// A well-formed store holds finitely many rules.
    pub proof fn lemma_finite(&self)
        requires
            self.wf(),
        ensures
            self@.dom().finite(),
    {
        lemma_mapping_len(self.entries@);
    }

    /// A store without entries.
    pub fn new() -> (store: StatsStore)
        ensures
            store.wf(),
            store@ == Map::<Seq<char>, Totals>::empty(),
    {
        let store = StatsStore { entries: Vec::new() };
        proof {
            lemma_mapping_len(store.entries@);
            assert(store@.dom() =~= Set::empty()) by {
                assert(store@.len() == 0);
            }
            assert(store@ =~= Map::empty());
        }
        store
    }

    /// The number of rules with a published snapshot.
    pub fn len(&self) -> (n: usize)
        requires
            self.wf(),
        ensures
            n == self@.len(),
    {
        proof {
            lemma_mapping_len(self.entries@);
        }
        self.entries.len()
    }

    fn position(&self, rule: &String) -> (at: Option<usize>)
        requires
            self.wf(),
        ensures
            match at {
                Some(i) => i < self.entries@.len() && self.entries@[i as int].rule@ == rule@,
                None => !self@.contains_key(rule@),
            },
    {
        let mut i: usize = 0;
        while i < self.entries.len()
            invariant
                i <= self.entries@.len(),
                forall|j: int| 0 <= j < i ==> !holds(self.entries@, j, rule@),
            decreases self.entries@.len() - i,
        {
            if self.entries[i].rule == *rule {
                return Some(i);
            }
            i = i + 1;
        }
        None
    }

    /// Writes `snapshot` as the last published value of `rule`, replacing
    /// what was there and leaving every other rule alone.
    pub fn publish(&mut self, rule: String, snapshot: Snapshot)
        requires
            old(self).wf(),
        ensures
            final(self).wf(),
            final(self)@ == old(self)@.insert(rule@, snapshot@),
    {
        let entry = Entry { rule, snapshot };
        match self.position(&entry.rule) {
            Some(i) => {
                proof {
                    lemma_mapping_update(self.entries@, i as int, entry);
                }
                self.entries.set(i, entry);
            },
            None => {
                proof {
                    lemma_mapping_push(self.entries@, entry);
                }
                self.entries.push(entry);
            },
        }
    }

    /// The last published snapshot of `rule`, if there is one.
    pub fn get(&self, rule: &str) -> (found: Option<Snapshot>)
        requires
            self.wf(),
        ensures
            match found {
                Some(snapshot) => self@.contains_key(rule@) && snapshot@ == self@[rule@],
                None => !self@.contains_key(rule@),
            },
    {
        let key = rule.to_owned();
        match self.position(&key) {
            Some(i) => {
                proof {
                    lemma_mapping_at(self.entries@, i as int);
                }
                Some(self.entries[i].snapshot)
            },
            None => None,
        }
    }

    /// A full copy of the store.
    pub fn read(&self) -> (copy: StatsStore)
        requires
            self.wf(),
        ensures
            copy.wf(),
            copy@ == self@,
    {
        let mut copy = StatsStore { entries: Vec::new() };
        let mut i: usize = 0;
        while i < self.entries.len()
            invariant
                i <= self.entries@.len(),
                copy.entries@.len() == i,
                forall|j: int|
                    0 <= j < i ==> (#[trigger] copy.entries@[j]).rule@ == self.entries@[j].rule@
                        && copy.entries@[j].snapshot == self.entries@[j].snapshot,
            decreases self.entries@.len() - i,
        {
            let entry = Entry {
                rule: self.entries[i].rule.clone(),
                snapshot: self.entries[i].snapshot,
            };
            copy.entries.push(entry);
            i = i + 1;
        }
        proof {
            let a = copy.entries@;
            let b = self.entries@;
            assert forall|i: int, j: int| 0 <= i < j < a.len() implies #[trigger] a[i].rule@
                != #[trigger] a[j].rule@ by {
                assert(a[i].rule@ == b[i].rule@);
                assert(a[j].rule@ == b[j].rule@);
            }
            assert forall|rule: Seq<char>| mapping(a).contains_key(rule) <==> mapping(
                b,
            ).contains_key(rule) by {
                if mapping(a).contains_key(rule) {
                    let i = choose|i: int| holds(a, i, rule);
                    assert(a[i].rule@ == b[i].rule@);
                    assert(holds(b, i, rule));
                }
                if mapping(b).contains_key(rule) {
                    let i = choose|i: int| holds(b, i, rule);
                    assert(a[i].rule@ == b[i].rule@);
                    assert(holds(a, i, rule));
                }
            }
            assert forall|rule: Seq<char>| mapping(a).contains_key(rule) implies mapping(a)[rule]
                == mapping(b)[rule] by {
                let i = choose|i: int| holds(a, i, rule);
                assert(a[i].rule@ == b[i].rule@);
                lemma_mapping_at(a, i);
                lemma_mapping_at(b, i);
            }
            assert(mapping(a) =~= mapping(b));
        }
        copy
    }

    /// A full copy of the store, without waiting.
    ///
    /// A shared borrow rules out a writer at work, so the copy is always
    /// there; a caller that guards the store with a lock answers `None`
    /// itself while a writer holds it.
    pub fn try_read(&self) -> (copy: Option<StatsStore>)
        requires
            self.wf(),
        ensures
            copy matches Some(store) && store.wf() && store@ == self@,
    {
        Some(self.read())
    }
}

} // verus!
