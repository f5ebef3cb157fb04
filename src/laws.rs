//! Properties that hold of every document and every run.
use vstd::prelude::*;
use crate::backend::{Backend, document};
use crate::pipeline::{lines_count, tallies_lines};
use crate::stats::{ColStats, StatsTable, walked};
use crate::value::{
    JValue,
    Kind,
    count_fields,
    count_in,
    kind_of,
    lemma_count_prefix_step,
    named,
    named_as,
    occurrences,
    tallied,
};

verus! {

/// The occurrences of a name split by the kind of their value.
proof fn lemma_fields_split(fs: Seq<(String, JValue)>, name: Seq<char>)
    ensures
        count_fields(fs, named(name)) == count_fields(fs, named_as(name, Kind::ShortStr))
            + count_fields(fs, named_as(name, Kind::LongStr)) + count_fields(
            fs,
            named_as(name, Kind::Number),
        ) + count_fields(fs, named_as(name, Kind::Array)) + count_fields(
            fs,
            named_as(name, Kind::Object),
        ) + count_fields(fs, named_as(name, Kind::Unknown)),
    decreases fs,
{
    if fs.len() > 0 {
        let last = fs[fs.len() - 1];
        lemma_fields_split(fs.subrange(0, fs.len() - 1), name);
        lemma_value_split(last.1, name);
    }
}

/// `lemma_fields_split` for the fields of one value.
proof fn lemma_value_split(v: JValue, name: Seq<char>)
    ensures
        occurrences(v, name) == tallied(v, name, Kind::ShortStr) + tallied(v, name, Kind::LongStr)
            + tallied(v, name, Kind::Number) + tallied(v, name, Kind::Array) + tallied(
            v,
            name,
            Kind::Object,
        ) + tallied(v, name, Kind::Unknown),
    decreases v,
{
    if let JValue::Object(fs) = v {
        lemma_fields_split(fs@, name);
    }
}

/// After walking a document into an empty table, the five counters of a
/// name add up to the number of times the name occurs in the document, at
/// any depth, less the occurrences whose value is a boolean or null.
pub proof fn law_counters_sum_to_occurrences(
    before: StatsTable,
    after: StatsTable,
    v: JValue,
    name: Seq<char>,
)
    requires
        before@ == Map::<Seq<char>, ColStats>::empty(),
        walked(before, after, v),
    ensures
        after.tally_of(name).sum() == occurrences(v, name) - tallied(v, name, Kind::Unknown),
{
    lemma_value_split(v, name);
    assert(after.tally_of(name).count(Kind::ShortStr) == tallied(v, name, Kind::ShortStr));
    assert(after.tally_of(name).count(Kind::LongStr) == tallied(v, name, Kind::LongStr));
    assert(after.tally_of(name).count(Kind::Number) == tallied(v, name, Kind::Number));
    assert(after.tally_of(name).count(Kind::Array) == tallied(v, name, Kind::Array));
    assert(after.tally_of(name).count(Kind::Object) == tallied(v, name, Kind::Object));
}

/// Counting over two fields, the second holding an object of one field.
proof fn lemma_count_two_levels(v: JValue, p: spec_fn(Seq<char>, Kind) -> bool)
    requires
        v is Object,
        v->Object_0@.len() == 2,
        v->Object_0@[1].1 is Object,
        v->Object_0@[1].1->Object_0@.len() == 1,
    ensures
        ({
            let fs = v->Object_0@;
            let gs = fs[1].1->Object_0@;
            count_in(v, p) == (if p(fs[0].0@, kind_of(fs[0].1)) {
                1nat
            } else {
                0nat
            }) + count_in(fs[0].1, p) + (if p(fs[1].0@, kind_of(fs[1].1)) {
                1nat
            } else {
                0nat
            }) + (if p(gs[0].0@, kind_of(gs[0].1)) {
                1nat
            } else {
                0nat
            }) + count_in(gs[0].1, p)
        }),
{
    let fs = v->Object_0@;
    let gs = fs[1].1->Object_0@;
    lemma_count_prefix_step(fs, 0, p);
    lemma_count_prefix_step(fs, 1, p);
    lemma_count_prefix_step(gs, 0, p);
    assert(fs.subrange(0, 2) =~= fs);
    assert(gs.subrange(0, 1) =~= gs);
}

/// A name that occurs once at the top level of a document and once in an
/// object nested under another name, both times with a string, number or
/// array, gets a single entry whose counters record both occurrences.
pub proof fn law_flattened_by_name(before: StatsTable, after: StatsTable, v: JValue)
    requires
        before@ == Map::<Seq<char>, ColStats>::empty(),
        walked(before, after, v),
        v is Object,
        v->Object_0@.len() == 2,
        v->Object_0@[1].1 is Object,
        v->Object_0@[1].1->Object_0@.len() == 1,
        v->Object_0@[1].1->Object_0@[0].0@ == v->Object_0@[0].0@,
        v->Object_0@[1].0@ != v->Object_0@[0].0@,
        kind_of(v->Object_0@[0].1) != Kind::Unknown,
        kind_of(v->Object_0@[0].1) != Kind::Object,
        kind_of(v->Object_0@[1].1->Object_0@[0].1) != Kind::Unknown,
        kind_of(v->Object_0@[1].1->Object_0@[0].1) != Kind::Object,
    ensures
        ({
            let fs = v->Object_0@;
            let name = fs[0].0@;
            let inner = fs[1].1->Object_0@[0].1;
            &&& after@.dom() =~= set![name, fs[1].0@]
            &&& after.tally_of(name).sum() == 2
            &&& forall|k: Kind|
                k != Kind::Unknown ==> #[trigger] after.tally_of(name).count(k) == (if kind_of(
                    fs[0].1,
                ) == k {
                    1nat
                } else {
                    0nat
                }) + (if kind_of(inner) == k {
                    1nat
                } else {
                    0nat
                })
        }),
{
    let fs = v->Object_0@;
    let name = fs[0].0@;
    assert forall|n: Seq<char>| #[trigger] after@.contains_key(n) <==> set![name, fs[1].0@].contains(
        n,
    ) by {
        lemma_count_two_levels(v, named(n));
    }
    assert forall|k: Kind|
        k != Kind::Unknown implies #[trigger] after.tally_of(name).count(k) == (if kind_of(fs[0].1)
            == k {
            1nat
        } else {
            0nat
        }) + (if kind_of(fs[1].1->Object_0@[0].1) == k {
            1nat
        } else {
            0nat
        }) by {
        lemma_count_two_levels(v, named_as(name, k));
    }
    assert(after.tally_of(name).count(Kind::ShortStr) + after.tally_of(name).count(Kind::LongStr)
        + after.tally_of(name).count(Kind::Number) + after.tally_of(name).count(Kind::Array)
        + after.tally_of(name).count(Kind::Object) == 2);
}

/// Two backends that read the same documents from `lines` count the same.
proof fn lemma_lines_count_same_documents(
    b1: Backend,
    b2: Backend,
    lines: Seq<String>,
    p: spec_fn(Seq<char>, Kind) -> bool,
)
    requires
        forall|i: int| 0 <= i < lines.len() ==> #[trigger] document(b1, lines[i]@) == document(b2, lines[i]@),
    ensures
        lines_count(b1, lines, p) == lines_count(b2, lines, p),
    decreases lines.len(),
{
    if lines.len() > 0 {
        let init = lines.drop_last();
        assert forall|i: int| 0 <= i < init.len() implies #[trigger] document(b1, init[i]@)
            == document(b2, init[i]@) by {
            assert(init[i] == lines[i]);
        }
        lemma_lines_count_same_documents(b1, b2, init, p);
        assert(document(b1, lines[lines.len() - 1]@) == document(b2, lines[lines.len() - 1]@));
    }
}

/// Runs over the same lines with two backends end with equal tables
/// wherever the two backends read the same document from every line: the
/// choice of backend reaches the tallies only through the documents.
pub proof fn law_backend_choice_keeps_tallies(
    t1: StatsTable,
    t2: StatsTable,
    b1: Backend,
    b2: Backend,
    lines: Seq<String>,
)
    requires
        tallies_lines(t1, b1, lines),
        tallies_lines(t2, b2, lines),
        forall|i: int| 0 <= i < lines.len() ==> #[trigger] document(b1, lines[i]@) == document(b2, lines[i]@),
    ensures
        t1@ == t2@,
{
    assert forall|name: Seq<char>| #[trigger] t1@.contains_key(name) <==> t2@.contains_key(name) by {
        lemma_lines_count_same_documents(b1, b2, lines, named(name));
    }
    assert forall|name: Seq<char>| #[trigger] t1@.contains_key(name) implies t1@[name] == t2@[name] by {
        lemma_lines_count_same_documents(b1, b2, lines, named_as(name, Kind::ShortStr));
        lemma_lines_count_same_documents(b1, b2, lines, named_as(name, Kind::LongStr));
        lemma_lines_count_same_documents(b1, b2, lines, named_as(name, Kind::Number));
        lemma_lines_count_same_documents(b1, b2, lines, named_as(name, Kind::Array));
        lemma_lines_count_same_documents(b1, b2, lines, named_as(name, Kind::Object));
        assert(t1.tally_of(name).count(Kind::ShortStr) == t2.tally_of(name).count(Kind::ShortStr));
        assert(t1.tally_of(name).count(Kind::LongStr) == t2.tally_of(name).count(Kind::LongStr));
        assert(t1.tally_of(name).count(Kind::Number) == t2.tally_of(name).count(Kind::Number));
        assert(t1.tally_of(name).count(Kind::Array) == t2.tally_of(name).count(Kind::Array));
        assert(t1.tally_of(name).count(Kind::Object) == t2.tally_of(name).count(Kind::Object));
    }
    assert(t1@ =~= t2@);
}

} // verus!
