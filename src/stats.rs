//! The per-field tallies and the walker that fills them.
use vstd::prelude::*;
use crate::value::{
    JValue,
    Kind,
    classify,
    count_fields,
    known,
    known_count,
    lemma_count_prefix_le,
    lemma_count_prefix_step,
    named,
    named_as,
    occurrences,
    tallied,
};

verus! {

/// How many times one field name held each kind of value.
#[derive(Clone, Copy, Debug, PartialEq, Eq, Structural)]
pub struct ColStats {
    pub num_short_str: usize,
    pub num_long_str: usize,
    pub num_number: usize,
    pub num_object: usize,
    pub num_array: usize,
}

impl ColStats {
    /// The tally with every counter at zero.
    pub open spec fn zeroed() -> ColStats {
        ColStats { num_short_str: 0, num_long_str: 0, num_number: 0, num_object: 0, num_array: 0 }
    }

    /// The counter for `k`; `Kind::Unknown` has none and reads as zero.
    pub open spec fn count(self, k: Kind) -> nat {
        match k {
            Kind::ShortStr => self.num_short_str as nat,
            Kind::LongStr => self.num_long_str as nat,
            Kind::Number => self.num_number as nat,
            Kind::Array => self.num_array as nat,
            Kind::Object => self.num_object as nat,
            Kind::Unknown => 0,
        }
    }

    /// The sum of the five counters.
    pub open spec fn sum(self) -> nat {
        (self.num_short_str + self.num_long_str + self.num_number + self.num_array
            + self.num_object) as nat
    }

    /// Every counter is at most `n`.
    pub open spec fn bounded_by(self, n: nat) -> bool {
        &&& self.num_short_str <= n
        &&& self.num_long_str <= n
        &&& self.num_number <= n
        &&& self.num_array <= n
        &&& self.num_object <= n
    }

    /// The counter for `k` one higher; unchanged for `Kind::Unknown`.
    pub open spec fn bumped(self, k: Kind) -> ColStats {
        match k {
            Kind::ShortStr => ColStats { num_short_str: (self.num_short_str + 1) as usize, ..self },
            Kind::LongStr => ColStats { num_long_str: (self.num_long_str + 1) as usize, ..self },
            Kind::Number => ColStats { num_number: (self.num_number + 1) as usize, ..self },
            Kind::Array => ColStats { num_array: (self.num_array + 1) as usize, ..self },
            Kind::Object => ColStats { num_object: (self.num_object + 1) as usize, ..self },
            Kind::Unknown => self,
        }
    }

    /// Adds one to the counter for `k`.
    fn bump(&mut self, k: Kind, bound: usize)
        requires
            old(self).bounded_by(bound as nat),
            bound < usize::MAX,
        ensures
            *final(self) == old(self).bumped(k),
    {
        match k {
            Kind::ShortStr => self.num_short_str = self.num_short_str + 1,
            Kind::LongStr => self.num_long_str = self.num_long_str + 1,
            Kind::Number => self.num_number = self.num_number + 1,
            Kind::Array => self.num_array = self.num_array + 1,
            Kind::Object => self.num_object = self.num_object + 1,
            Kind::Unknown => {},
        }
    }
}

impl Default for ColStats {
    fn default() -> (r: ColStats)
        ensures
            r == ColStats::zeroed(),
    {
        ColStats { num_short_str: 0, num_long_str: 0, num_number: 0, num_object: 0, num_array: 0 }
    }
}

/// The tallies of one run, keyed by field name.
///
/// Names are kept in order of first appearance; each name appears once.
/// `total` is the number of tallied occurrences so far, and bounds every
/// counter, so that it alone decides whether more can be added.
pub struct StatsTable {
    names: Vec<String>,
    tallies: Vec<ColStats>,
    total: usize,
    map: Ghost<Map<Seq<char>, ColStats>>,
}

impl View for StatsTable {
    type V = Map<Seq<char>, ColStats>;

    closed spec fn view(&self) -> Map<Seq<char>, ColStats> {
        self.map@
    }
}

impl StatsTable {
    /// The internal consistency of the table.
    pub closed spec fn wf(&self) -> bool {
        &&& self.names.len() == self.tallies.len()
        &&& forall|i: int, j: int|
            0 <= i < j < self.names.len() ==> self.names@[i]@ != self.names@[j]@
        &&& forall|i: int|
            0 <= i < self.names.len() ==> self.map@.contains_key(#[trigger] self.names@[i]@)
                && self.map@[self.names@[i]@] == self.tallies@[i]
        &&& forall|k: Seq<char>|
            #[trigger] self.map@.contains_key(k) ==> exists|i: int|
                0 <= i < self.names.len() && self.names@[i]@ == k
        &&& forall|k: Seq<char>|
            #[trigger] self.map@.contains_key(k) ==> self.map@[k].bounded_by(self.total as nat)
    }

    /// The number of tallied field occurrences.
    pub closed spec fn observed(&self) -> nat {
        self.total as nat
    }

    /// The tally of `name`, all zero where the name was never seen.
    pub open spec fn tally_of(&self, name: Seq<char>) -> ColStats {
        if self@.contains_key(name) {
            self@[name]
        } else {
            ColStats::zeroed()
        }
    }

    /// An empty table.
    pub fn new() -> (r: StatsTable)
        ensures
            r.wf(),
            r@ == Map::<Seq<char>, ColStats>::empty(),
            r.observed() == 0,
    {
        StatsTable { names: Vec::new(), tallies: Vec::new(), total: 0, map: Ghost(Map::empty()) }
    }

    /// The number of distinct field names.
    pub fn len(&self) -> (r: usize)
        requires
            self.wf(),
        ensures
            r == self@.len(),
    {
        proof {
            self.lemma_dom_is_names();
        }
        self.names.len()
    }

    /// The tally of `name`, if it was seen.
    pub fn get(&self, name: &str) -> (r: Option<ColStats>)
        requires
            self.wf(),
        ensures
            r == if self@.contains_key(name@) {
                Some(self@[name@])
            } else {
                None::<ColStats>
            },
    {
        let key = name.to_owned();
        match self.find(&key) {
            Some(i) => Some(self.tallies[i]),
            None => None,
        }
    }

    /// The field names seen, each once, in order of first appearance.
    pub fn field_names(&self) -> (r: Vec<String>)
        requires
            self.wf(),
        ensures
            r@.len() == self@.len(),
            forall|i: int| 0 <= i < r@.len() ==> self@.contains_key(#[trigger] r@[i]@),
            forall|name: Seq<char>| #[trigger]
                self@.contains_key(name) ==> exists|i: int| 0 <= i < r@.len() && r@[i]@ == name,
    {
        proof {
            self.lemma_dom_is_names();
        }
        let mut r: Vec<String> = Vec::new();
        let mut i: usize = 0;
        while i < self.names.len()
            invariant
                self.wf(),
                i <= self.names.len(),
                r@.len() == i,
                forall|j: int| 0 <= j < i ==> r@[j] == self.names@[j],
            decreases self.names.len() - i,
        {
            r.push(self.names[i].clone());
            i = i + 1;
        }
        proof {
            assert forall|name: Seq<char>| #[trigger] self@.contains_key(name) implies exists|i: int|
                0 <= i < r@.len() && r@[i]@ == name by {
                let i = choose|i: int| 0 <= i < self.names.len() && self.names@[i]@ == name;
                assert(r@[i]@ == name);
            }
        }
        r
    }

    /// The number of tallied field occurrences.
    pub fn total(&self) -> (r: usize)
        ensures
            r == self.observed(),
    {
        self.total
    }

    /// The map holds one key per stored name.
    proof fn lemma_dom_is_names(&self)
        requires
            self.wf(),
        ensures
            self.map@.dom().finite(),
            self.map@.len() == self.names.len(),
    {
        let ks = self.names@.map_values(|s: String| s@);
        assert(ks.no_duplicates()) by {
            assert forall|i: int, j: int| 0 <= i < ks.len() && 0 <= j < ks.len() && i != j
                implies ks[i] != ks[j] by {
                if i < j {
                } else {
                }
            }
        }
        assert(self.map@.dom() =~= ks.to_set()) by {
            assert forall|k: Seq<char>| self.map@.dom().contains(k) implies ks.to_set().contains(
                k,
            ) by {
                let i = choose|i: int| 0 <= i < self.names.len() && self.names@[i]@ == k;
                assert(ks[i] == k);
            }
        }
        ks.unique_seq_to_set();
        vstd::seq_lib::seq_to_set_is_finite(ks);
    }

    /// The index of `name`, if it has an entry.
    fn find(&self, name: &String) -> (r: Option<usize>)
        requires
            self.wf(),
        ensures
            match r {
                Some(i) => i < self.names.len() && self.names@[i as int]@ == name@,
                None => !self@.contains_key(name@),
            },
    {
        let mut i: usize = 0;
        while i < self.names.len()
            invariant
                self.wf(),
                i <= self.names.len(),
                forall|j: int| 0 <= j < i ==> self.names@[j]@ != name@,
            decreases self.names.len() - i,
        {
            if self.names[i].eq(name) {
                return Some(i);
            }
            i = i + 1;
        }
        None
    }

    /// Makes sure `name` has an entry, then counts one occurrence of kind `k`.
    fn record(&mut self, name: &String, k: Kind)
        requires
            old(self).wf(),
            k != Kind::Unknown ==> old(self).observed() < usize::MAX,
        ensures
            final(self).wf(),
            final(self)@ == old(self)@.insert(name@, old(self).tally_of(name@).bumped(k)),
            forall|kk: Kind|
                kk != Kind::Unknown ==> #[trigger] final(self).tally_of(name@).count(kk) == old(
                    self,
                ).tally_of(name@).count(kk) + if kk == k {
                    1nat
                } else {
                    0nat
                },
            final(self).observed() == old(self).observed() + if k == Kind::Unknown {
                0nat
            } else {
                1nat
            },
    {
        let ghost pre = *self;
        let idx = match self.find(name) {
            Some(i) => i,
            None => {
                self.names.push(name.clone());
                self.tallies.push(ColStats::default());
                proof {
                    self.map@ = self.map@.insert(name@, ColStats::zeroed());
                    let last = self.names.len() - 1;
                    assert(self.names@[last]@ == name@);
                    assert forall|k: Seq<char>| #[trigger] self.map@.contains_key(k) implies exists|
                        i: int,
                    | 0 <= i < self.names.len() && self.names@[i]@ == k by {
                        if k == name@ {
                            assert(self.names@[last]@ == k);
                        } else {
                            assert(pre.map@.contains_key(k));
                            let i = choose|i: int| 0 <= i < pre.names.len() && pre.names@[i]@ == k;
                            assert(self.names@[i] == pre.names@[i]);
                        }
                    }
                }
                self.names.len() - 1
            },
        };
        assert(self.wf());
        assert(self.tallies@[idx as int] == self.tally_of(name@));
        assert(pre.tally_of(name@) == self.tally_of(name@));
        assert(self.tally_of(name@).bounded_by(self.total as nat));
        let ghost before = *self;
        let mut t = self.tallies[idx];
        if k != Kind::Unknown {
            t.bump(k, self.total);
            self.total = self.total + 1;
        }
        self.tallies.set(idx, t);
        proof {
            self.map@ = self.map@.insert(name@, t);
            assert(t.bounded_by(self.total as nat));
            assert forall|k: Seq<char>| #[trigger] self.map@.contains_key(k) implies self.map@[
                k
            ].bounded_by(self.total as nat) by {
                if k != name@ {
                    assert(before.map@.contains_key(k));
                }
            }
            assert forall|k: Seq<char>| #[trigger] self.map@.contains_key(k) implies exists|i: int|
                0 <= i < self.names.len() && self.names@[i]@ == k by {
                assert(before.map@.contains_key(k));
                let i = choose|i: int| 0 <= i < before.names.len() && before.names@[i]@ == k;
                assert(self.names@[i]@ == k);
            }
        }
    }
}

/// `after` is `before` with every field occurrence of `v` tallied.
pub open spec fn walked(before: StatsTable, after: StatsTable, v: JValue) -> bool {
    &&& after.wf()
    &&& after.observed() == before.observed() + known_count(v)
    &&& forall|name: Seq<char>| #[trigger]
        after@.contains_key(name) <==> before@.contains_key(name) || occurrences(v, name) > 0
    &&& forall|name: Seq<char>, k: Kind|
        k != Kind::Unknown ==> #[trigger] after.tally_of(name).count(k) == before.tally_of(
            name,
        ).count(k) + tallied(v, name, k)
}

/// Tallies every field occurrence of the object `v`, and of the objects
/// nested in its field values, into `table`, keyed by field name alone.
///
/// Arrays are counted but not entered. A value that is not an object adds
/// nothing. A field whose value is a boolean or null still gets an entry.
pub fn walk(v: &JValue, table: &mut StatsTable)
    requires
        old(table).wf(),
        old(table).observed() + known_count(*v) <= usize::MAX,
    ensures
        final(table).wf(),
        final(table).observed() == old(table).observed() + known_count(*v),
        forall|name: Seq<char>| #[trigger]
            final(table)@.contains_key(name) <==> old(table)@.contains_key(name) || occurrences(
                *v,
                name,
            ) > 0,
        forall|name: Seq<char>, k: Kind|
            k != Kind::Unknown ==> #[trigger] final(table).tally_of(name).count(k) == old(
                table,
            ).tally_of(name).count(k) + tallied(*v, name, k),
    decreases *v,
{
    let ghost start = *table;
    match v {
        JValue::Object(fields) => {
            let ghost fs = fields@;
            let mut i: usize = 0;
            while i < fields.len()
                invariant
                    fs == fields@,
                    *v == JValue::Object(*fields),
                    i <= fs.len(),
                    table.wf(),
                    start.observed() + count_fields(fs, known()) <= usize::MAX,
                    table.observed() == start.observed() + count_fields(fs.subrange(0, i as int), known()),
                    forall|name: Seq<char>| #[trigger]
                        table@.contains_key(name) <==> start@.contains_key(name) || count_fields(
                            fs.subrange(0, i as int),
                            named(name),
                        ) > 0,
                    forall|name: Seq<char>, k: Kind|
                        k != Kind::Unknown ==> #[trigger] table.tally_of(name).count(k)
                            == start.tally_of(name).count(k) + count_fields(
                            fs.subrange(0, i as int),
                            named_as(name, k),
                        ),
                decreases fs.len() - i,
            {
                let ghost prev = *table;
                let name = &fields[i].0;
                let child = &fields[i].1;
                let k = classify(child);
                proof {
                    lemma_count_prefix_step(fs, i as int, known());
                    lemma_count_prefix_le(fs, i + 1, known());
                }
                table.record(name, k);
                let ghost mid = *table;
                if let JValue::Object(_) = child {
                    proof {
                        assert(decreases_to!(*v => (*v)->Object_0));
                        assert((*v)->Object_0 == *fields);
                        assert(decreases_to!(*fields => fields@));
                        assert(decreases_to!(fields@ => fields@[i as int]));
                        assert(decreases_to!(fields@[i as int] => fields@[i as int].1));
                        assert(decreases_to!(*v => fields@[i as int].1));
                    }
                    walk(child, table);
                }
                proof {
                    assert forall|n: Seq<char>| #[trigger]
                        table@.contains_key(n) <==> start@.contains_key(n) || count_fields(
                            fs.subrange(0, i + 1),
                            named(n),
                        ) > 0 by {
                        lemma_count_prefix_step(fs, i as int, named(n));
                    }
                    assert forall|n: Seq<char>, kk: Kind|
                        kk != Kind::Unknown implies #[trigger] table.tally_of(n).count(kk)
                            == start.tally_of(n).count(kk) + count_fields(
                            fs.subrange(0, i + 1),
                            named_as(n, kk),
                        ) by {
                        lemma_count_prefix_step(fs, i as int, named_as(n, kk));
                        if n != name@ {
                            assert(mid.tally_of(n) == prev.tally_of(n));
                        }
                    }
                }
                i = i + 1;
            }
            proof {
                assert(fs.subrange(0, fs.len() as int) =~= fs);
            }
        },
        _ => {},
    }
}

} // verus!
