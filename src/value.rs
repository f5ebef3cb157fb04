//! A generic JSON value and the mathematical counts that the walker's
//! contracts are stated over.
use vstd::prelude::*;

verus! {

/// Strings of at most this many characters count as short.
pub const SHORT_STRING_MAX: usize = 10;

/// A parsed JSON document, independent of the parser that produced it.
///
/// Numbers keep no payload: only their kind matters to the statistics.
/// An object keeps its fields in the order the parser yielded them.
#[derive(Debug)]
pub enum JValue {
    Null,
    Bool(bool),
    Number,
    Str(String),
    Array(Vec<JValue>),
    Object(Vec<(String, JValue)>),
}

/// The kind under which one field occurrence is tallied.
#[derive(Clone, Copy, Debug, PartialEq, Eq, Structural)]
pub enum Kind {
    ShortStr,
    LongStr,
    Number,
    Array,
    Object,
    /// Booleans and nulls: no counter changes for them.
    Unknown,
}

/// The kind of a field's value; strings are split by character count.
pub open spec fn kind_of(v: JValue) -> Kind {
    match v {
        JValue::Str(s) => if s@.len() > SHORT_STRING_MAX {
            Kind::LongStr
        } else {
            Kind::ShortStr
        },
        JValue::Number => Kind::Number,
        JValue::Array(_) => Kind::Array,
        JValue::Object(_) => Kind::Object,
        _ => Kind::Unknown,
    }
}

/// How many field occurrences in `fs`, and in the objects nested in their
/// values (not in arrays), satisfy `p` on (field name, kind of value).
pub open spec fn count_fields(fs: Seq<(String, JValue)>, p: spec_fn(Seq<char>, Kind) -> bool) -> nat
    decreases fs,
{
    if fs.len() == 0 {
        0
    } else {
        let last = fs[fs.len() - 1];
        count_fields(fs.subrange(0, fs.len() - 1), p) + (if p(last.0@, kind_of(last.1)) {
            1nat
        } else {
            0nat
        }) + count_in(last.1, p)
    }
}

/// `count_fields` over the fields of `v` when it is an object; zero otherwise.
pub open spec fn count_in(v: JValue, p: spec_fn(Seq<char>, Kind) -> bool) -> nat
    decreases v,
{
    match v {
        JValue::Object(fs) => count_fields(fs@, p),
        _ => 0,
    }
}

/// Selects the occurrences of the field `name` whose value is of kind `kind`.
pub open spec fn named_as(name: Seq<char>, kind: Kind) -> spec_fn(Seq<char>, Kind) -> bool {
    |n: Seq<char>, k: Kind| n == name && k == kind
}

/// Selects the occurrences of the field `name`.
pub open spec fn named(name: Seq<char>) -> spec_fn(Seq<char>, Kind) -> bool {
    |n: Seq<char>, k: Kind| n == name
}

/// Selects the occurrences whose value is of a tallied kind.
pub open spec fn known() -> spec_fn(Seq<char>, Kind) -> bool {
    |n: Seq<char>, k: Kind| k != Kind::Unknown
}

/// Occurrences of the field `name` in `v` whose value is of kind `kind`.
pub open spec fn tallied(v: JValue, name: Seq<char>, kind: Kind) -> nat {
    count_in(v, named_as(name, kind))
}

/// Occurrences of the field `name` in `v`, whatever its value.
pub open spec fn occurrences(v: JValue, name: Seq<char>) -> nat {
    count_in(v, named(name))
}

/// Field occurrences in `v` whose value is of a tallied kind.
pub open spec fn known_count(v: JValue) -> nat {
    count_in(v, known())
}

/// Counting over a prefix one field longer adds exactly that field's share.
pub proof fn lemma_count_prefix_step(
    fs: Seq<(String, JValue)>,
    i: int,
    p: spec_fn(Seq<char>, Kind) -> bool,
)
    requires
        0 <= i < fs.len(),
    ensures
        count_fields(fs.subrange(0, i + 1), p) == count_fields(fs.subrange(0, i), p) + (if p(
            fs[i].0@,
            kind_of(fs[i].1),
        ) {
            1nat
        } else {
            0nat
        }) + count_in(fs[i].1, p),
{
    assert(fs.subrange(0, i + 1).subrange(0, i) =~= fs.subrange(0, i));
}

/// A prefix of the fields never counts more than all of them.
pub proof fn lemma_count_prefix_le(
    fs: Seq<(String, JValue)>,
    j: int,
    p: spec_fn(Seq<char>, Kind) -> bool,
)
    requires
        0 <= j <= fs.len(),
    ensures
        count_fields(fs.subrange(0, j), p) <= count_fields(fs, p),
    decreases fs.len(),
{
    if j == fs.len() {
        assert(fs.subrange(0, j) =~= fs);
    } else {
        let init = fs.subrange(0, fs.len() - 1);
        lemma_count_prefix_le(init, j, p);
        assert(init.subrange(0, j) =~= fs.subrange(0, j));
    }
}

/// Classifies a field's value.
pub fn classify(v: &JValue) -> (k: Kind)
    ensures
        k == kind_of(*v),
{
    match v {
        JValue::Str(s) => if s.as_str().unicode_len() > SHORT_STRING_MAX {
            Kind::LongStr
        } else {
            Kind::ShortStr
        },
        JValue::Number => Kind::Number,
        JValue::Array(_) => Kind::Array,
        JValue::Object(_) => Kind::Object,
        _ => Kind::Unknown,
    }
}

} // verus!
