//! Parsing lines and tallying their documents into one table.
use vstd::prelude::*;
use crate::backend::{Backend, document, is_parse_error, parse_line};
use crate::error::MyError;
use crate::stats::{StatsTable, walk, walked};
use crate::value::{
    JValue,
    Kind,
    classify,
    count_fields,
    count_in,
    known,
    known_count,
    lemma_count_prefix_le,
    lemma_count_prefix_step,
    named,
    named_as,
};

verus! {

/// The number of field occurrences of a tallied kind in `v`, or `None` where
/// it exceeds `usize::MAX`.
pub fn count_known(v: &JValue) -> (r: Option<usize>)
    ensures
        r is Some <==> known_count(*v) <= usize::MAX,
        r is Some ==> r->Some_0 == known_count(*v),
    decreases *v,
{
    match v {
        JValue::Object(fields) => {
            let ghost fs = fields@;
            let mut acc: usize = 0;
            let mut i: usize = 0;
            while i < fields.len()
                invariant
                    fs == fields@,
                    *v == JValue::Object(*fields),
                    i <= fs.len(),
                    acc == count_fields(fs.subrange(0, i as int), known()),
                decreases fs.len() - i,
            {
                let child = &fields[i].1;
                proof {
                    lemma_count_prefix_step(fs, i as int, known());
                    lemma_count_prefix_le(fs, i + 1, known());
                }
                if classify(child) != Kind::Unknown {
                    if acc == usize::MAX {
                        return None;
                    }
                    acc = acc + 1;
                }
                if let JValue::Object(_) = child {
                    proof {
                        assert(decreases_to!(*v => (*v)->Object_0));
                        assert((*v)->Object_0 == *fields);
                        assert(decreases_to!(*fields => fields@));
                        assert(decreases_to!(fields@ => fields@[i as int]));
                        assert(decreases_to!(fields@[i as int] => fields@[i as int].1));
                    }
                    match count_known(child) {
                        Some(n) => {
                            if acc > usize::MAX - n {
                                return None;
                            }
                            acc = acc + n;
                        },
                        None => {
                            return None;
                        },
                    }
                }
                i = i + 1;
            }
            proof {
                assert(fs.subrange(0, fs.len() as int) =~= fs);
            }
            Some(acc)
        },
        _ => Some(0),
    }
}

/// Parses `line` with `backend` and tallies its document into `table`.
///
/// A line that does not parse, or whose tallies would pass `usize::MAX`
/// occurrences in all, leaves `table` as it was.
pub fn process_line(line: &str, backend: Backend, table: &mut StatsTable) -> (r: Result<
    (),
    MyError,
>)
    requires
        old(table).wf(),
    ensures
        final(table).wf(),
        match document(backend, line@) {
            None => r is Err && is_parse_error(backend, r->Err_0) && *final(table) == *old(table),
            Some(v) => if old(table).observed() + known_count(v) <= usize::MAX {
                r is Ok && walked(*old(table), *final(table), v)
            } else {
                r is Err && r->Err_0 is CountOverflow && *final(table) == *old(table)
            },
        },
{
    let v = match parse_line(line, backend) {
        Ok(v) => v,
        Err(e) => {
            return Err(e);
        },
    };
    match count_known(&v) {
        Some(n) => {
            if table.total() > usize::MAX - n {
                return Err(MyError::CountOverflow);
            }
        },
        None => {
            return Err(MyError::CountOverflow);
        },
    }
    walk(&v, table);
    Ok(())
}

/// The sum, over the documents that `backend` reads from `lines`, of the
/// field occurrences that `p` selects; a line that does not parse adds nothing.
pub open spec fn lines_count(
    backend: Backend,
    lines: Seq<String>,
    p: spec_fn(Seq<char>, Kind) -> bool,
) -> nat
    decreases lines.len(),
{
    if lines.len() == 0 {
        0
    } else {
        lines_count(backend, lines.drop_last(), p) + match document(backend, lines.last()@) {
            Some(v) => count_in(v, p),
            None => 0,
        }
    }
}

/// Every line parses with `backend`.
pub open spec fn parses_all(backend: Backend, lines: Seq<String>) -> bool {
    forall|i: int| 0 <= i < lines.len() ==> (#[trigger] document(backend, lines[i]@)) is Some
}

/// `t` holds exactly the tallies of the documents that `backend` reads from
/// `lines`: a name has an entry when it occurs in one of them, and each
/// counter is the number of its occurrences of that kind across them all.
pub open spec fn tallies_lines(t: StatsTable, backend: Backend, lines: Seq<String>) -> bool {
    &&& t.wf()
    &&& t.observed() == lines_count(backend, lines, known())
    &&& forall|name: Seq<char>| #[trigger]
        t@.contains_key(name) <==> lines_count(backend, lines, named(name)) > 0
    &&& forall|name: Seq<char>, k: Kind|
        k != Kind::Unknown ==> #[trigger] t.tally_of(name).count(k) == lines_count(
            backend,
            lines,
            named_as(name, k),
        )
}

/// Some line fails to parse while every line before it parses and their
/// tallies still fit: the run stops there with a parse error.
pub open spec fn parse_fails_first(backend: Backend, lines: Seq<String>) -> bool {
    exists|i: int|
        0 <= i < lines.len() && document(backend, lines[i]@) is None && parses_all(
            backend,
            lines.subrange(0, i),
        ) && lines_count(backend, lines.subrange(0, i), known()) <= usize::MAX
}

/// Counting over one more line adds exactly that line's share.
proof fn lemma_lines_step(
    backend: Backend,
    lines: Seq<String>,
    i: int,
    p: spec_fn(Seq<char>, Kind) -> bool,
)
    requires
        0 <= i < lines.len(),
    ensures
        lines_count(backend, lines.subrange(0, i + 1), p) == lines_count(
            backend,
            lines.subrange(0, i),
            p,
        ) + match document(backend, lines[i]@) {
            Some(v) => count_in(v, p),
            None => 0,
        },
{
    assert(lines.subrange(0, i + 1).drop_last() =~= lines.subrange(0, i));
}

/// A prefix of the lines never counts more than all of them.
proof fn lemma_lines_prefix_le(
    backend: Backend,
    lines: Seq<String>,
    j: int,
    p: spec_fn(Seq<char>, Kind) -> bool,
)
    requires
        0 <= j <= lines.len(),
    ensures
        lines_count(backend, lines.subrange(0, j), p) <= lines_count(backend, lines, p),
    decreases lines.len(),
{
    if j == lines.len() {
        assert(lines.subrange(0, j) =~= lines);
    } else {
        let init = lines.drop_last();
        lemma_lines_prefix_le(backend, init, j, p);
        assert(init.subrange(0, j) =~= lines.subrange(0, j));
    }
}

/// Tallies the documents of `lines`, in order, into a new table, parsing
/// each with `backend`. The first line that fails to parse, or whose tallies
/// would pass `usize::MAX` occurrences in all, ends the run with that error
/// and no table.
pub fn run_lines(lines: &Vec<String>, backend: Backend) -> (r: Result<StatsTable, MyError>)
    ensures
        r is Ok <==> parses_all(backend, lines@) && lines_count(backend, lines@, known())
            <= usize::MAX,
        r is Ok ==> tallies_lines(r->Ok_0, backend, lines@),
        r is Err ==> (is_parse_error(backend, r->Err_0) <==> parse_fails_first(backend, lines@)),
        r is Err ==> is_parse_error(backend, r->Err_0) || r->Err_0 is CountOverflow,
{
    let ghost ls = lines@;
    let mut table = StatsTable::new();
    let mut i: usize = 0;
    proof {
        assert(ls.subrange(0, 0) =~= Seq::<String>::empty());
    }
    while i < lines.len()
        invariant
            ls == lines@,
            i <= ls.len(),
            tallies_lines(table, backend, ls.subrange(0, i as int)),
            parses_all(backend, ls.subrange(0, i as int)),
            lines_count(backend, ls.subrange(0, i as int), known()) <= usize::MAX,
        decreases ls.len() - i,
    {
        let ghost prev = table;
        let ghost sub = ls.subrange(0, i as int);
        let ghost next = ls.subrange(0, i + 1);
        proof {
            lemma_lines_step(backend, ls, i as int, known());
            lemma_lines_prefix_le(backend, ls, i + 1, known());
        }
        match process_line(lines[i].as_str(), backend, &mut table) {
            Ok(()) => {},
            Err(e) => {
                proof {
                    if document(backend, ls[i as int]@) is None {
                        assert(parse_fails_first(backend, ls)) by {
                            assert(0 <= i < ls.len() && document(backend, ls[i as int]@) is None
                                && parses_all(backend, ls.subrange(0, i as int)) && lines_count(
                                backend,
                                ls.subrange(0, i as int),
                                known(),
                            ) <= usize::MAX);
                        }
                        assert(!parses_all(backend, ls));
                    } else {
                        assert(lines_count(backend, next, known()) > usize::MAX);
                        assert(!parse_fails_first(backend, ls)) by {
                            if parse_fails_first(backend, ls) {
                                let j = choose|j: int|
                                    0 <= j < ls.len() && document(backend, ls[j]@) is None
                                        && parses_all(backend, ls.subrange(0, j)) && lines_count(
                                        backend,
                                        ls.subrange(0, j),
                                        known(),
                                    ) <= usize::MAX;
                                if j <= i {
                                    assert(sub[j] == ls[j]);
                                } else {
                                    assert(ls.subrange(0, j).subrange(0, i + 1) =~= next);
                                    lemma_lines_prefix_le(backend, ls.subrange(0, j), i + 1, known());
                                }
                            }
                        }
                    }
                }
                return Err(e);
            },
        }
        proof {
            assert forall|name: Seq<char>| #[trigger]
                table@.contains_key(name) <==> lines_count(backend, next, named(name)) > 0 by {
                lemma_lines_step(backend, ls, i as int, named(name));
            }
            assert forall|name: Seq<char>, k: Kind|
                k != Kind::Unknown implies #[trigger] table.tally_of(name).count(k)
                    == lines_count(backend, next, named_as(name, k)) by {
                lemma_lines_step(backend, ls, i as int, named_as(name, k));
            }
            assert forall|j: int| 0 <= j < next.len() implies (#[trigger] document(
                backend,
                next[j]@,
            )) is Some by {
                if j < i {
                    assert(next[j] == sub[j]);
                }
            }
        }
        i = i + 1;
    }
    proof {
        assert(ls.subrange(0, ls.len() as int) =~= ls);
    }
    Ok(table)
}

} // verus!
