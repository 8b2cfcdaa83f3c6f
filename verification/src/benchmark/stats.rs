//! Named counters, listed by name.

use vstd::prelude::*;

use crate::json;
use crate::json::JsonObject;
use crate::text;
use crate::text::{comes_before, same_text};

verus! {

/// Named counters.
pub struct TransportStats {
    entries: Vec<(String, u64)>,
}

impl View for TransportStats {
    type V = Seq<(Seq<char>, u64)>;

    /// The counters, by name.
    closed spec fn view(&self) -> Seq<(Seq<char>, u64)> {
        self.entries@.map_values(|entry: (String, u64)| (entry.0@, entry.1))
    }
}

/// Whether the names stand in order, each once.
pub open spec fn sorted(entries: Seq<(Seq<char>, u64)>) -> bool {
    forall|i: int, j: int|
        0 <= i < j < entries.len() ==> #[trigger] text::precedes(entries[i].0, entries[j].0)
}

/// The value of each name.
pub open spec fn values(entries: Seq<(Seq<char>, u64)>) -> Map<Seq<char>, u64> {
    Map::new(
        |name: Seq<char>| exists|value: u64| #[trigger] entries.contains((name, value)),
        |name: Seq<char>| choose|value: u64| #[trigger] entries.contains((name, value)),
    )
}

/// The counters as members of a JSON object.
pub open spec fn stats_fields(entries: Seq<(Seq<char>, u64)>) -> Seq<(Seq<char>, Seq<char>)> {
    entries.map_values(|entry: (Seq<char>, u64)| (entry.0, text::decimal(entry.1 as nat)))
}

impl TransportStats {
    /// Whether the names stand in order, each once.
    pub open spec fn wf(self) -> bool {
        sorted(self@)
    }

    /// The value of each counter.
    pub open spec fn map(self) -> Map<Seq<char>, u64> {
        values(self@)
    }

    /// No counters.
    pub fn new() -> (stats: Self)
        ensures
            stats.wf(),
            stats@.len() == 0,
            stats.map() == Map::<Seq<char>, u64>::empty(),
    {
        let stats = TransportStats { entries: Vec::new() };
        assert(stats.map() =~= Map::<Seq<char>, u64>::empty());
        stats
    }

    /// Sets a counter.
    pub fn insert(&mut self, name: &str, value: u64)
        requires
            old(self).wf(),
        ensures
            final(self).wf(),
            final(self).map() == old(self).map().insert(name@, value),
    {
        let ghost before = self@;
        let mut index: usize = 0;
        while index < self.entries.len() && comes_before(self.entries[index].0.as_str(), name)
            invariant
                self@ == before,
                index <= self.entries@.len(),
                forall|i: int| 0 <= i < index ==> #[trigger] text::precedes(before[i].0, name@),
            decreases self.entries@.len() - index,
        {
            assert(before[index as int].0 == self.entries@[index as int].0@);
            index += 1;
        }
        if index < self.entries.len() && same_text(self.entries[index].0.as_str(), name) {
            assert(before[index as int].0 == name@);
            self.entries.set(index, (name.to_owned(), value));
            proof {
                let after = self@;
                assert(after =~= before.update(index as int, (name@, value)));
                lemma_replaced(before, after, index as int, name@, value);
                lemma_values(before, after, name@, value);
            }
        } else {
            self.entries.insert(index, (name.to_owned(), value));
            proof {
                let after = self@;
                assert(after =~= before.insert(index as int, (name@, value)));
                if index < before.len() {
                    assert(before[index as int].0 == old(self).entries@[index as int].0@);
                    text::lemma_precedes(before[index as int].0, name@);
                }
                lemma_inserted(before, after, index as int, name@, value);
                lemma_values(before, after, name@, value);
            }
        }
    }

    /// A counter's value.
    pub fn get(&self, name: &str) -> (value: Option<u64>)
        requires
            self.wf(),
        ensures
            match value {
                Some(value) => self.map().contains_key(name@) && self.map()[name@] == value,
                None => !self.map().contains_key(name@),
            },
    {
        let mut index: usize = 0;
        while index < self.entries.len()
            invariant
                self.wf(),
                index <= self.entries@.len(),
                self@.len() == self.entries@.len(),
                forall|i: int| 0 <= i < index ==> (#[trigger] self@[i]).0 != name@,
            decreases self.entries@.len() - index,
        {
            assert(self@[index as int] == (
                self.entries@[index as int].0@,
                self.entries@[index as int].1,
            ));
            if same_text(self.entries[index].0.as_str(), name) {
                assert(self@.contains((name@, self.entries@[index as int].1)));
                proof {
                    lemma_one_value(self@, name@, self.entries@[index as int].1, self.map()[name@]);
                }
                return Some(self.entries[index].1);
            }
            index += 1;
        }
        None
    }

    /// The number of counters.
    pub fn len(&self) -> (count: usize)
        ensures
            count == self@.len(),
    {
        self.entries.len()
    }

    /// The counters as a JSON object.
    pub fn json(&self) -> (json: String)
        ensures
            json@ == json::object(stats_fields(self@)),
    {
        let mut object = JsonObject::new();
        let mut index: usize = 0;
        assert(object@ =~= stats_fields(self@).take(0));
        while index < self.entries.len()
            invariant
                object.wf(),
                index <= self.entries@.len(),
                self@.len() == self.entries@.len(),
                object@ == stats_fields(self@).take(index as int),
            decreases self.entries@.len() - index,
        {
            object.number(self.entries[index].0.as_str(), self.entries[index].1);
            assert(object@ =~= stats_fields(self@).take(index + 1));
            index += 1;
        }
        assert(object@ =~= stats_fields(self@));
        object.finish()
    }
}

proof fn lemma_one_value(entries: Seq<(Seq<char>, u64)>, name: Seq<char>, first: u64, second: u64)
    requires
        sorted(entries),
        entries.contains((name, first)),
        entries.contains((name, second)),
    ensures
        first == second,
{
    let i = choose|i: int| 0 <= i < entries.len() && entries[i] == (name, first);
    let j = choose|j: int| 0 <= j < entries.len() && entries[j] == (name, second);
    text::lemma_precedes(name, name);
    if i < j {
        assert(text::precedes(entries[i].0, entries[j].0));
    } else if j < i {
        assert(text::precedes(entries[j].0, entries[i].0));
    }
}

proof fn lemma_values(
    before: Seq<(Seq<char>, u64)>,
    after: Seq<(Seq<char>, u64)>,
    name: Seq<char>,
    value: u64,
)
    requires
        sorted(before),
        sorted(after),
        forall|entry: (Seq<char>, u64)| #[trigger]
            after.contains(entry) <==> entry == (name, value) || (entry.0 != name
                && before.contains(entry)),
    ensures
        values(after) == values(before).insert(name, value),
{
    assert forall|key: Seq<char>| values(after).contains_key(key) == values(before).insert(
        name,
        value,
    ).contains_key(key) by {
        if key == name {
            assert(after.contains((name, value)));
        } else {
            if values(before).contains_key(key) {
                let v = choose|v: u64| #[trigger] before.contains((key, v));
                assert(after.contains((key, v)));
            }
            if values(after).contains_key(key) {
                let v = choose|v: u64| #[trigger] after.contains((key, v));
                assert(before.contains((key, v)));
            }
        }
    }
    assert forall|key: Seq<char>| #[trigger] values(after).contains_key(key) implies values(
        after,
    )[key] == values(before).insert(name, value)[key] by {
        let v = values(after)[key];
        assert(after.contains((key, v)));
        if key == name {
            assert(after.contains((name, value)));
            lemma_one_value(after, name, v, value);
        } else {
            assert(before.contains((key, v)));
            let b = values(before)[key];
            assert(before.contains((key, b)));
            lemma_one_value(before, key, v, b);
        }
    }
    assert(values(after) =~= values(before).insert(name, value));
}

proof fn lemma_replaced(
    before: Seq<(Seq<char>, u64)>,
    after: Seq<(Seq<char>, u64)>,
    index: int,
    name: Seq<char>,
    value: u64,
)
    requires
        sorted(before),
        0 <= index < before.len(),
        before[index].0 == name,
        after == before.update(index, (name, value)),
    ensures
        sorted(after),
        forall|entry: (Seq<char>, u64)| #[trigger]
            after.contains(entry) <==> entry == (name, value) || (entry.0 != name
                && before.contains(entry)),
{
    assert forall|i: int, j: int| 0 <= i < j < after.len() implies #[trigger] text::precedes(
        after[i].0,
        after[j].0,
    ) by {
        assert(text::precedes(before[i].0, before[j].0));
    }
    assert forall|entry: (Seq<char>, u64)| #[trigger]
        after.contains(entry) <==> entry == (name, value) || (entry.0 != name && before.contains(
            entry,
        )) by {
        assert(after[index] == (name, value));
        if before.contains(entry) && entry.0 != name {
            let k = choose|k: int| 0 <= k < before.len() && before[k] == entry;
            assert(after[k] == entry);
        }
        if after.contains(entry) && entry != (name, value) {
            let k = choose|k: int| 0 <= k < after.len() && after[k] == entry;
            assert(before[k] == entry);
            if k < index {
                assert(text::precedes(before[k].0, before[index].0));
            } else {
                assert(text::precedes(before[index].0, before[k].0));
            }
            text::lemma_precedes(before[k].0, before[index].0);
        }
    }
}

proof fn lemma_inserted(
    before: Seq<(Seq<char>, u64)>,
    after: Seq<(Seq<char>, u64)>,
    index: int,
    name: Seq<char>,
    value: u64,
)
    requires
        sorted(before),
        0 <= index <= before.len(),
        forall|i: int| 0 <= i < index ==> #[trigger] text::precedes(before[i].0, name),
        index < before.len() ==> text::precedes(name, before[index].0),
        after == before.insert(index, (name, value)),
    ensures
        sorted(after),
        forall|entry: (Seq<char>, u64)| #[trigger]
            after.contains(entry) <==> entry == (name, value) || (entry.0 != name
                && before.contains(entry)),
{
    assert forall|k: int| index <= k < before.len() implies #[trigger] text::precedes(
        name,
        before[k].0,
    ) by {
        if k > index {
            assert(text::precedes(before[index].0, before[k].0));
            text::lemma_precedes_transitive(name, before[index].0, before[k].0);
        }
    }
    assert forall|i: int, j: int| 0 <= i < j < after.len() implies #[trigger] text::precedes(
        after[i].0,
        after[j].0,
    ) by {
        if i < index && j < index {
            assert(text::precedes(before[i].0, before[j].0));
        } else if i < index && j == index {
            assert(text::precedes(before[i].0, name));
        } else if i < index {
            assert(text::precedes(before[i].0, before[j - 1].0));
        } else if i == index {
            assert(text::precedes(name, before[j - 1].0));
        } else {
            assert(text::precedes(before[i - 1].0, before[j - 1].0));
        }
    }
    assert forall|entry: (Seq<char>, u64)| #[trigger]
        after.contains(entry) <==> entry == (name, value) || (entry.0 != name && before.contains(
            entry,
        )) by {
        assert(after[index] == (name, value));
        if before.contains(entry) && entry.0 != name {
            let k = choose|k: int| 0 <= k < before.len() && before[k] == entry;
            if k < index {
                assert(after[k] == entry);
            } else {
                assert(after[k + 1] == entry);
            }
        }
        if after.contains(entry) && entry != (name, value) {
            let k = choose|k: int| 0 <= k < after.len() && after[k] == entry;
            let b = if k < index {
                k
            } else {
                k - 1
            };
            assert(before[b] == entry);
            if b < index {
                assert(text::precedes(before[b].0, name));
            } else {
                assert(text::precedes(name, before[b].0));
            }
            text::lemma_precedes(before[b].0, name);
        }
    }
}

} // verus!
