//! A map whose keys are byte strings.
use crate::wire::same_bytes;
use std::collections::HashMap;
use vstd::prelude::*;

verus! {

broadcast use vstd::std_specs::hash::group_hash_axioms;

/// One entry of a table.
struct Entry<V> {
    key: Vec<u8>,
    value: V,
}

/// A few values by byte strings. No key occurs twice.
struct Bucket<V> {
    entries: Vec<Entry<V>>,
}

/// Values by byte strings. The entries stand in a hash map by a number that is made of
/// their keys; those that share a number share a bucket.
pub struct Table<V> {
    buckets: HashMap<u128, Bucket<V>>,
}

/// The number of a key: that of its last sixteen bytes.
spec fn number_of(key: Seq<u8>) -> u128
    decreases key.len(),
{
    if key.len() == 0 {
        0
    } else {
        (number_of(key.drop_last()) % 0x1_00_0000_0000_0000_0000_0000_0000_0000u128 * 256
            + key.last()) as u128
    }
}

/// Computes the number of a key.
fn number_key(key: &[u8]) -> (number: u128)
    ensures
        number == number_of(key@),
{
    let mut number: u128 = 0;
    let mut i: usize = 0;
    assert(key@.take(0) =~= Seq::empty());
    while i < key.len()
        invariant
            i <= key@.len(),
            number == number_of(key@.take(i as int)),
        decreases key@.len() - i,
    {
        proof {
            let front = key@.take(i + 1);
            assert(front.drop_last() =~= key@.take(i as int));
            assert(front.last() == key@[i as int]);
        }
        number = number % 0x1_00_0000_0000_0000_0000_0000_0000_0000u128 * 256 + key[i] as u128;
        i = i + 1;
    }
    assert(key@.take(key@.len() as int) =~= key@);
    number
}

/// The entries as a map.
spec fn entry_map<V>(entries: Seq<Entry<V>>) -> Map<Seq<u8>, V>
    decreases entries.len(),
{
    if entries.len() == 0 {
        Map::empty()
    } else {
        entry_map(entries.drop_last()).insert(entries.last().key@, entries.last().value)
    }
}

/// No key occurs twice.
spec fn distinct<V>(entries: Seq<Entry<V>>) -> bool {
    forall|i: int, j: int|
        #![trigger entries[i].key, entries[j].key]
        0 <= i < j < entries.len() ==> entries[i].key@ != entries[j].key@
}

/// What the map of distinct entries holds.
proof fn lemma_entry_map<V>(entries: Seq<Entry<V>>)
    requires
        distinct(entries),
    ensures
        entry_map(entries).dom().finite(),
        entry_map(entries).dom().len() == entries.len(),
        forall|i: int|
            #![trigger entries[i].key]
            0 <= i < entries.len() ==> entry_map(entries).contains_key(entries[i].key@)
                && entry_map(entries)[entries[i].key@] == entries[i].value,
        forall|k: Seq<u8>| #[trigger]
            entry_map(entries).contains_key(k) ==> exists|i: int|
                0 <= i < entries.len() && (#[trigger] entries[i].key)@ == k,
    decreases entries.len(),
{
    if entries.len() == 0 {
        assert(entry_map(entries).dom() =~= Set::empty());
    } else {
        let front = entries.drop_last();
        let last = entries.last();
        assert forall|i: int, j: int|
            #![trigger front[i].key, front[j].key]
            0 <= i < j < front.len() implies front[i].key@ != front[j].key@ by {
            assert(front[i] == entries[i] && front[j] == entries[j]);
            assert(entries[i].key@ != entries[j].key@);
        }
        lemma_entry_map(front);
        let n = entries.len() - 1;
        assert(!entry_map(front).contains_key(last.key@)) by {
            if entry_map(front).contains_key(last.key@) {
                let i = choose|i: int|
                    0 <= i < front.len() && (#[trigger] front[i].key)@ == last.key@;
                assert(entries[i].key@ != entries[n].key@);
            }
        }
        assert forall|i: int| #![trigger entries[i].key] 0 <= i < entries.len() implies entry_map(
            entries,
        ).contains_key(entries[i].key@) && entry_map(entries)[entries[i].key@]
            == entries[i].value by {
            if i < n {
                assert(front[i].key == entries[i].key);
                assert(entries[i].key@ != entries[n].key@);
            }
        }
        assert forall|k: Seq<u8>| #[trigger] entry_map(entries).contains_key(k) implies exists|
            i: int,
        | 0 <= i < entries.len() && (#[trigger] entries[i].key)@ == k by {
            if k == last.key@ {
                assert(entries[n].key@ == k);
            } else {
                let i = choose|i: int| 0 <= i < front.len() && (#[trigger] front[i].key)@ == k;
                assert(entries[i].key@ == k);
            }
        }
    }
}

/// Taking one entry out takes its key out of the map.
proof fn lemma_taken_out<V>(entries: Seq<Entry<V>>, index: int)
    requires
        distinct(entries),
        0 <= index < entries.len(),
    ensures
        distinct(entries.update(index, entries.last()).drop_last()),
        entry_map(entries.update(index, entries.last()).drop_last()) == entry_map(entries).remove(
            entries[index].key@,
        ),
{
    let n = entries.len() - 1;
    let after = entries.update(index, entries.last()).drop_last();
    assert forall|i: int, j: int|
        #![trigger after[i].key, after[j].key]
        0 <= i < j < after.len() implies after[i].key@ != after[j].key@ by {
        let a = if i == index {
            n
        } else {
            i
        };
        let b = if j == index {
            n
        } else {
            j
        };
        assert(after[i] == entries[a] && after[j] == entries[b]);
        assert(entries[i].key == entries[i].key && entries[j].key == entries[j].key);
        if a < b {
            assert(entries[a].key@ != entries[b].key@);
        } else {
            assert(entries[b].key@ != entries[a].key@);
        }
    }
    lemma_entry_map(entries);
    lemma_entry_map(after);
    let before = entry_map(entries);
    let key = entries[index].key@;
    assert forall|k: Seq<u8>| entry_map(after).contains_key(k) == before.remove(key).contains_key(
        k,
    ) by {
        if entry_map(after).contains_key(k) {
            let i = choose|i: int| 0 <= i < after.len() && (#[trigger] after[i].key)@ == k;
            let a = if i == index {
                n
            } else {
                i
            };
            assert(after[i] == entries[a]);
            assert(entries[a].key@ == k);
            if a < index {
                assert(entries[a].key@ != entries[index].key@);
            } else {
                assert(entries[index].key@ != entries[a].key@);
            }
        }
        if before.remove(key).contains_key(k) {
            let a = choose|a: int| 0 <= a < entries.len() && (#[trigger] entries[a].key)@ == k;
            let i = if a == n {
                index
            } else {
                a
            };
            assert(after[i] == entries[a]);
            assert(after[i].key@ == k);
        }
    }
    assert forall|k: Seq<u8>| entry_map(after).contains_key(k) implies entry_map(after)[k]
        == before.remove(key)[k] by {
        let i = choose|i: int| 0 <= i < after.len() && (#[trigger] after[i].key)@ == k;
        let a = if i == index {
            n
        } else {
            i
        };
        assert(after[i] == entries[a]);
        assert(entries[a].key@ == k);
    }
    assert(entry_map(after) =~= before.remove(key));
}

impl<V> View for Bucket<V> {
    type V = Map<Seq<u8>, V>;

    closed spec fn view(&self) -> Map<Seq<u8>, V> {
        entry_map(self.entries@)
    }
}

impl<V> Bucket<V> {
    /// No key occurs twice.
    spec fn wf(&self) -> bool {
        distinct(self.entries@)
    }

    /// An empty bucket.
    fn new() -> (bucket: Self)
        ensures
            bucket.wf(),
            bucket@ == Map::<Seq<u8>, V>::empty(),
    {
        Bucket { entries: Vec::new() }
    }

    /// How many entries there are.
    fn len(&self) -> (length: usize)
        requires
            self.wf(),
        ensures
            self@.dom().finite(),
            length == self@.dom().len(),
            length == 0 ==> forall|key: Seq<u8>| !#[trigger] self@.contains_key(key),
    {
        proof {
            lemma_entry_map(self.entries@);
        }
        self.entries.len()
    }

    /// Where a key stands.
    fn find(&self, key: &[u8]) -> (index: Option<usize>)
        requires
            self.wf(),
        ensures
            match index {
                Some(i) => i < self.entries@.len() && self.entries@[i as int].key@ == key@
                    && self@.contains_key(key@) && self@[key@] == self.entries@[i as int].value,
                None => !self@.contains_key(key@),
            },
    {
        proof {
            lemma_entry_map(self.entries@);
        }
        let mut i: usize = 0;
        while i < self.entries.len()
            invariant
                i <= self.entries@.len(),
                self.wf(),
                forall|j: int|
                    #![trigger self.entries@[j].key]
                    0 <= j < i ==> self.entries@[j].key@ != key@,
            decreases self.entries@.len() - i,
        {
            if same_bytes(&self.entries[i].key, key) {
                assert(self.entries@[i as int].key@ == key@);
                proof {
                    lemma_entry_map(self.entries@);
                }
                return Some(i);
            }
            i = i + 1;
        }
        None
    }

    /// The value of a key.
    fn get(&self, key: &[u8]) -> (value: Option<&V>)
        requires
            self.wf(),
        ensures
            match value {
                Some(found) => self@.contains_key(key@) && *found == self@[key@],
                None => !self@.contains_key(key@),
            },
    {
        match self.find(key) {
            Some(i) => Some(&self.entries[i].value),
            None => None,
        }
    }

    /// Removes a key; its value is returned.
    fn remove(&mut self, key: &[u8]) -> (value: Option<V>)
        requires
            old(self).wf(),
        ensures
            final(self).wf(),
            final(self)@ == old(self)@.remove(key@),
            match value {
                Some(found) => old(self)@.contains_key(key@) && found == old(self)@[key@],
                None => !old(self)@.contains_key(key@),
            },
    {
        match self.find(key) {
            Some(i) => {
                proof {
                    lemma_taken_out(self.entries@, i as int);
                }
                let entry = self.entries.swap_remove(i);
                Some(entry.value)
            },
            None => {
                assert(self@.remove(key@) =~= self@);
                None
            },
        }
    }

    /// Sets the value of a key; the value that it had is returned.
    fn insert(&mut self, key: Vec<u8>, value: V) -> (before: Option<V>)
        requires
            old(self).wf(),
        ensures
            final(self).wf(),
            final(self)@ == old(self)@.insert(key@, value),
            match before {
                Some(found) => old(self)@.contains_key(key@) && found == old(self)@[key@],
                None => !old(self)@.contains_key(key@),
            },
    {
        let before = self.remove(&key);
        let ghost held = self.entries@;
        let ghost name = key@;
        self.entries.push(Entry { key, value });
        proof {
            let after = self.entries@;
            lemma_entry_map(held);
            assert(after.drop_last() =~= held);
            assert forall|i: int, j: int|
                #![trigger after[i].key, after[j].key]
                0 <= i < j < after.len() implies after[i].key@ != after[j].key@ by {
                assert(after[i] == held[i]);
                assert(entry_map(held).contains_key(held[i].key@));
                if j < held.len() {
                    assert(after[j] == held[j]);
                    assert(held[i].key@ != held[j].key@);
                }
            }
            assert(self@ =~= old(self)@.insert(name, value));
        }
        before
    }

    /// Keeps only the entries whose values pass a test.
    fn retain<F: Fn(&V) -> bool>(&mut self, keep: F, Ghost(test): Ghost<
        spec_fn(V) -> bool,
    >)
        requires
            old(self).wf(),
            forall|value: V| call_requires(keep, (&value,)),
            forall|value: V, kept: bool|
                call_ensures(keep, (&value,), kept) ==> kept == test(value),
        ensures
            final(self).wf(),
            final(self)@ == old(self)@.restrict(
                old(self)@.dom().filter(|k: Seq<u8>| test(old(self)@[k])),
            ),
    {
        let ghost all = self@;
        let mut i: usize = 0;
        proof {
            lemma_entry_map(self.entries@);
        }
        while i < self.entries.len()
            invariant
                self.wf(),
                i <= self.entries@.len(),
                forall|value: V| call_requires(keep, (&value,)),
                forall|value: V, kept: bool|
                    call_ensures(keep, (&value,), kept) ==> kept == test(value),
                forall|k: Seq<u8>| #[trigger]
                    self@.contains_key(k) ==> all.contains_key(k) && self@[k] == all[k],
                forall|k: Seq<u8>|
                    #![trigger all.contains_key(k)]
                    all.contains_key(k) && test(all[k]) ==> self@.contains_key(k),
                forall|j: int|
                    #![trigger self.entries@[j]]
                    0 <= j < i ==> test(self.entries@[j].value),
            decreases self.entries@.len() - i,
        {
            let ghost before = self.entries@;
            if keep(&self.entries[i].value) {
                i = i + 1;
            } else {
                proof {
                    lemma_entry_map(before);
                    lemma_taken_out(before, i as int);
                    let name = before[i as int].key@;
                    assert(self@.contains_key(name));
                    assert(!test(all[name]));
                }
                self.entries.swap_remove(i);
                proof {
                    assert forall|j: int|
                        #![trigger self.entries@[j]]
                        0 <= j < i implies test(self.entries@[j].value) by {
                        assert(self.entries@[j] == before[j]);
                    }
                }
            }
        }
        proof {
            lemma_entry_map(self.entries@);
            assert forall|k: Seq<u8>| self@.contains_key(k) implies test(all[k]) by {
                let j = choose|j: int|
                    0 <= j < self.entries@.len() && (#[trigger] self.entries@[j].key)@ == k;
                assert(self@[k] == self.entries@[j].value);
            }
            assert(self@ =~= all.restrict(all.dom().filter(|k: Seq<u8>| test(all[k]))));
        }
    }
}


/// The entries of all buckets as one map.
spec fn table_map<V>(buckets: Map<u128, Bucket<V>>) -> Map<Seq<u8>, V> {
    Map::new(
        |key: Seq<u8>|
            buckets.contains_key(number_of(key)) && buckets[number_of(key)]@.contains_key(key),
        |key: Seq<u8>| buckets[number_of(key)]@[key],
    )
}

impl<V> View for Table<V> {
    type V = Map<Seq<u8>, V>;

    closed spec fn view(&self) -> Map<Seq<u8>, V> {
        table_map(self.buckets@)
    }
}

/// What a table holds once one of its buckets holds other entries, or is gone because it
/// has none.
proof fn lemma_bucket_replaced<V>(
    before: Map<u128, Bucket<V>>,
    after: Map<u128, Bucket<V>>,
    number: u128,
    held: Map<Seq<u8>, V>,
)
    requires
        in_place(before),
        forall|key: Seq<u8>| #[trigger] held.contains_key(key) ==> number_of(key) == number,
        ({
            ||| after == before.remove(number) && forall|key: Seq<u8>|
                !#[trigger] held.contains_key(key)
            ||| after.contains_key(number) && after == before.insert(number, after[number])
                && after[number]@ == held && after[number].wf()
        }),
    ensures
        in_place(after),
        forall|key: Seq<u8>|
            #![trigger table_map(after).contains_key(key)]
            table_map(after).contains_key(key) == if number_of(key) == number {
                held.contains_key(key)
            } else {
                table_map(before).contains_key(key)
            },
        forall|key: Seq<u8>|
            #![trigger table_map(after)[key]]
            table_map(after).contains_key(key) ==> table_map(after)[key] == if number_of(key)
                == number {
                held[key]
            } else {
                table_map(before)[key]
            },
{
    assert forall|other: u128| #[trigger] after.contains_key(other) implies after[other].wf()
        && forall|key: Seq<u8>| #[trigger]
        after[other]@.contains_key(key) ==> number_of(key) == other by {
        if other != number {
            assert(before.contains_key(other));
        }
    }
}

/// The keys of a bucket have its number, and none occurs twice.
spec fn in_place<V>(buckets: Map<u128, Bucket<V>>) -> bool {
    forall|number: u128| #[trigger]
        buckets.contains_key(number) ==> buckets[number].wf() && forall|key: Seq<u8>| #[trigger]
            buckets[number]@.contains_key(key) ==> number_of(key) == number
}

impl<V> Table<V> {
    /// Each key stands in the bucket with its number, and none occurs twice.
    pub closed spec fn wf(&self) -> bool {
        in_place(self.buckets@)
    }

    /// An empty table.
    pub fn new() -> (table: Self)
        ensures
            table.wf(),
            table@ == Map::<Seq<u8>, V>::empty(),
    {
        let table = Table { buckets: HashMap::new() };
        assert(table@ =~= Map::<Seq<u8>, V>::empty());
        table
    }

    /// The value of a key.
    pub fn get(&self, key: &[u8]) -> (value: Option<&V>)
        requires
            self.wf(),
        ensures
            match value {
                Some(found) => self@.contains_key(key@) && *found == self@[key@],
                None => !self@.contains_key(key@),
            },
    {
        match self.buckets.get(&number_key(key)) {
            Some(bucket) => bucket.get(key),
            None => None,
        }
    }

    /// Removes a key; its value is returned.
    pub fn remove(&mut self, key: &[u8]) -> (value: Option<V>)
        requires
            old(self).wf(),
        ensures
            final(self).wf(),
            final(self)@ == old(self)@.remove(key@),
            match value {
                Some(found) => old(self)@.contains_key(key@) && found == old(self)@[key@],
                None => !old(self)@.contains_key(key@),
            },
    {
        let number: u128 = number_key(key);
        match self.buckets.remove(&number) {
            None => {
                assert(self@ =~= old(self)@.remove(key@));
                None
            },
            Some(mut bucket) => {
                let value = bucket.remove(key);
                let ghost held = bucket@;
                if bucket.len() > 0 {
                    self.buckets.insert(number, bucket);
                }
                proof {
                    let before = old(self).buckets@;
                    assert(before.remove(number).insert(number, bucket) =~= before.insert(
                        number,
                        bucket,
                    ));
                    lemma_bucket_replaced(before, self.buckets@, number, held);
                    assert(self@ =~= old(self)@.remove(key@));
                }
                value
            },
        }
    }

    /// Sets the value of a key; the value that it had is returned.
    pub fn insert(&mut self, key: Vec<u8>, value: V) -> (before: Option<V>)
        requires
            old(self).wf(),
        ensures
            final(self).wf(),
            final(self)@ == old(self)@.insert(key@, value),
            match before {
                Some(found) => old(self)@.contains_key(key@) && found == old(self)@[key@],
                None => !old(self)@.contains_key(key@),
            },
    {
        let number: u128 = number_key(&key);
        let mut bucket = match self.buckets.remove(&number) {
            Some(bucket) => bucket,
            None => Bucket::new(),
        };
        let ghost name = key@;
        let before = bucket.insert(key, value);
        self.buckets.insert(number, bucket);
        assert(self@ =~= old(self)@.insert(name, value));
        before
    }

    /// The numbers under which buckets stand.
    fn numbers(&self) -> (numbers: Vec<u128>)
        ensures
            numbers@.no_duplicates(),
            forall|number: u128| numbers@.contains(number) <==> #[trigger]
                self.buckets@.contains_key(number),
    {
        let mut numbers: Vec<u128> = Vec::new();
        for number in iter: self.buckets.keys()
            invariant
                iter.seq().unref().to_set() == self.buckets@.dom(),
                iter.seq().no_duplicates(),
                numbers@.len() == iter.index(),
                forall|j: int| 0 <= j < numbers@.len() ==> #[trigger] numbers@[j] == *iter.seq()[j],
                numbers@.no_duplicates(),
                forall|j: int|
                    0 <= j < numbers@.len() ==> self.buckets@.contains_key(#[trigger] numbers@[j]),
                forall|n: u128| #[trigger]
                    self.buckets@.contains_key(n) ==> numbers@.contains(n) || exists|j: int|
                        iter.index() <= j < iter.seq().len() && *(#[trigger] iter.seq()[j]) == n,
        {
            let ghost before = numbers@;
            let ghost at = iter.index() as int;
            numbers.push(*number);
            proof {
                assert(iter.seq().unref()[at] == *number);
                assert(iter.seq().unref().to_set().contains(*number));
                assert forall|n: u128| #[trigger] self.buckets@.contains_key(n) implies
                    numbers@.contains(n) || exists|j: int|
                    at + 1 <= j < iter.seq().len() && *(#[trigger] iter.seq()[j]) == n by {
                    if before.contains(n) {
                        let j = choose|j: int| 0 <= j < before.len() && before[j] == n;
                        assert(numbers@[j] == n);
                    } else {
                        let j = choose|j: int|
                            at <= j < iter.seq().len() && *(#[trigger] iter.seq()[j]) == n;
                        if j == at {
                            assert(numbers@[at] == n);
                        }
                    }
                }
                assert forall|i: int, j: int|
                    0 <= i < numbers@.len() && 0 <= j < numbers@.len() && i != j implies numbers@[i]
                    != numbers@[j] by {
                    assert(iter.seq()[i] != iter.seq()[j]);
                }
            }
        }
        assert forall|number: u128| numbers@.contains(number) implies #[trigger]
            self.buckets@.contains_key(number) by {
            let j = choose|j: int| 0 <= j < numbers@.len() && numbers@[j] == number;
        }
        numbers
    }

    /// Keeps only the entries whose values pass a test.
    pub(crate) fn retain<F: Fn(&V) -> bool + Copy>(&mut self, keep: F, Ghost(test): Ghost<
        spec_fn(V) -> bool,
    >)
        requires
            old(self).wf(),
            forall|value: V| call_requires(keep, (&value,)),
            forall|value: V, kept: bool|
                call_ensures(keep, (&value,), kept) ==> kept == test(value),
        ensures
            final(self).wf(),
            final(self)@ == old(self)@.restrict(
                old(self)@.dom().filter(|k: Seq<u8>| test(old(self)@[k])),
            ),
    {
        let numbers = self.numbers();
        let ghost all = self@;
        let mut i: usize = 0;
        while i < numbers.len()
            invariant
                i <= numbers@.len(),
                self.wf(),
                all == old(self)@,
                forall|value: V| call_requires(keep, (&value,)),
                forall|value: V, kept: bool|
                    call_ensures(keep, (&value,), kept) ==> kept == test(value),
                forall|key: Seq<u8>| #[trigger]
                    self@.contains_key(key) ==> all.contains_key(key) && self@[key] == all[key]
                        && numbers@.contains(number_of(key)),
                forall|key: Seq<u8>|
                    #![trigger all.contains_key(key)]
                    all.contains_key(key) && test(all[key]) ==> self@.contains_key(key),
                forall|key: Seq<u8>, j: int|
                    #![trigger self@.contains_key(key), numbers@[j]]
                    self@.contains_key(key) && 0 <= j < i && numbers@[j] == number_of(key)
                        ==> test(all[key]),
            decreases numbers@.len() - i,
        {
            let number: u128 = numbers[i];
            let ghost before = self.buckets@;
            let ghost start = self@;
            assert(start == table_map(before));
            if let Some(mut bucket) = self.buckets.remove(&number) {
                let ghost whole = bucket@;
                bucket.retain(keep, Ghost(test));
                let ghost held = bucket@;
                if bucket.len() > 0 {
                    self.buckets.insert(number, bucket);
                }
                proof {
                    assert(before.remove(number).insert(number, bucket) =~= before.insert(
                        number,
                        bucket,
                    ));
                    lemma_bucket_replaced(before, self.buckets@, number, held);
                    assert forall|key: Seq<u8>| #[trigger] self@.contains_key(key) implies
                        start.contains_key(key) && self@[key] == start[key] && (number_of(key)
                        == number ==> test(start[key])) by {
                        if number_of(key) == number {
                            assert(whole.contains_key(key));
                        }
                    }
                    assert forall|key: Seq<u8>| #[trigger] start.contains_key(key) && test(
                        start[key],
                    ) implies self@.contains_key(key) by {
                        if number_of(key) == number {
                            assert(whole.contains_key(key));
                        }
                    }
                }
            } else {
                assert(self@ == start);
            }
            proof {
                assert forall|key: Seq<u8>, j: int|
                    #![trigger self@.contains_key(key), numbers@[j]]
                    self@.contains_key(key) && 0 <= j < i + 1 && numbers@[j] == number_of(
                        key,
                    ) implies test(all[key]) by {
                    assert(start.contains_key(key));
                }
            }
            i = i + 1;
        }
        proof {
            assert forall|key: Seq<u8>| self@.contains_key(key) implies test(all[key]) by {
                let j = choose|j: int| 0 <= j < numbers@.len() && numbers@[j] == number_of(key);
                assert(numbers@[j] == number_of(key));
            }
            assert(self@ =~= all.restrict(all.dom().filter(|k: Seq<u8>| test(all[k]))));
        }
    }

    /// Counts the entries, up to a limit.
    pub fn count_up_to(&self, limit: usize) -> (count: usize)
        requires
            self.wf(),
        ensures
            self@.dom().finite(),
            count == if self@.dom().len() < limit {
                self@.dom().len()
            } else {
                limit as nat
            },
    {
        let numbers = self.numbers();
        let ghost mut seen: Set<Seq<u8>> = Set::empty();
        let mut count: usize = 0;
        let mut full = false;
        let mut i: usize = 0;
        while i < numbers.len()
            invariant
                i <= numbers@.len(),
                self.wf(),
                numbers@.no_duplicates(),
                forall|number: u128| numbers@.contains(number) <==> #[trigger]
                    self.buckets@.contains_key(number),
                seen.finite(),
                count <= limit,
                !full ==> count == seen.len(),
                full ==> count == limit && seen.len() >= limit,
                forall|key: Seq<u8>| #[trigger]
                    seen.contains(key) ==> self@.contains_key(key) && exists|j: int|
                        0 <= j < i && #[trigger] numbers@[j] == number_of(key),
                forall|key: Seq<u8>, j: int|
                    #![trigger self@.contains_key(key), numbers@[j]]
                    self@.contains_key(key) && 0 <= j < i && numbers@[j] == number_of(key)
                        ==> seen.contains(key),
            decreases numbers@.len() - i,
        {
            let number: u128 = numbers[i];
            assert(numbers@.contains(number));
            if let Some(bucket) = self.buckets.get(&number) {
                let more: usize = bucket.len();
                proof {
                    let keys = bucket@.dom();
                    assert forall|key: Seq<u8>| seen.contains(key) implies !keys.contains(key) by {
                        if keys.contains(key) {
                            assert(number_of(key) == number);
                            let j = choose|j: int|
                                0 <= j < i && #[trigger] numbers@[j] == number_of(key);
                            assert(numbers@[j] == numbers@[i as int]);
                        }
                    }
                    assert(seen.disjoint(keys));
                    vstd::set_lib::lemma_set_disjoint_lens(seen, keys);
                    let both = seen + keys;
                    assert forall|key: Seq<u8>| #[trigger] both.contains(key) implies
                        self@.contains_key(key) && exists|j: int|
                        0 <= j < i + 1 && #[trigger] numbers@[j] == number_of(key) by {
                        if keys.contains(key) {
                            assert(numbers@[i as int] == number_of(key));
                        } else {
                            let j = choose|j: int|
                                0 <= j < i && #[trigger] numbers@[j] == number_of(key);
                            assert(numbers@[j] == number_of(key));
                        }
                    }
                    seen = both;
                }
                if more >= limit - count {
                    count = limit;
                    full = true;
                } else {
                    count = count + more;
                }
            }
            i = i + 1;
        }
        proof {
            assert forall|key: Seq<u8>| self@.contains_key(key) implies seen.contains(key) by {
                assert(numbers@.contains(number_of(key)));
                let j = choose|j: int| 0 <= j < numbers@.len() && numbers@[j] == number_of(key);
                assert(numbers@[j] == number_of(key));
            }
            assert(self@.dom() =~= seen);
        }
        count
    }
}

} // verus!
