//! The field projection: rendering a record (or a flushed merge buffer)
//! into one output line.
//!
//! With an explicit comma-separated field list, the named values are
//! space-joined in the list's order; without one, all values are
//! space-joined in the record's own (name-sorted) field order, so the
//! fallback rendering is deterministic.

use vstd::prelude::*;
use crate::errors::GropError;
use crate::record::{spec_get, vals_of, keys_of, lookup_all, lemma_lookup_all_first_missing,
    lemma_lookup_all_some, lemma_deep_view_push, lemma_unique_get_at, unique_keys, Record};
use crate::text::{join_with, join_strings};

verus! {

/// Splitting at every comma, as `str::split(",")` does: `n` commas yield
/// `n + 1` parts, empty parts kept.
pub open spec fn split_commas_spec(s: Seq<char>) -> Seq<Seq<char>>
    decreases s.len(),
{
    if s.len() == 0 {
        seq![Seq::<char>::empty()]
    } else if s[0] == ',' {
        seq![Seq::<char>::empty()] + split_commas_spec(s.drop_first())
    } else {
        let rest = split_commas_spec(s.drop_first());
        seq![seq![s[0]] + rest[0]] + rest.drop_first()
    }
}

pub proof fn lemma_split_commas_nonempty(s: Seq<char>)
    ensures
        split_commas_spec(s).len() >= 1,
    decreases s.len(),
{
    if s.len() > 0 {
        lemma_split_commas_nonempty(s.drop_first())
    }
}

/// The first part of the split grows by a leading character; the remaining
/// parts stay.
proof fn lemma_split_commas_cons(s: Seq<char>, c: char)
    requires
        c != ',',
    ensures
        split_commas_spec(seq![c] + s) == seq![seq![c] + split_commas_spec(s)[0]]
            + split_commas_spec(s).drop_first(),
{
    let t = seq![c] + s;
    assert(t[0] == c);
    assert(t.drop_first() =~= s);
    lemma_split_commas_nonempty(s);
}

/// Splits `s` at every comma, exactly as [`split_commas_spec`] describes.
pub fn split_commas(s: &str) -> (r: Vec<String>)
    ensures
        r.deep_view() == split_commas_spec(s@),
{
    let n = s.unicode_len();
    let mut parts: Vec<String> = Vec::new();
    let mut start: usize = 0;
    let mut i: usize = 0;
    proof {
        assert(s@.skip(0) =~= s@);
        lemma_split_commas_nonempty(s@);
        assert(s@.subrange(0, 0) =~= Seq::<char>::empty());
        assert(s@.subrange(0, 0) + split_commas_spec(s@)[0] =~= split_commas_spec(s@)[0]);
        assert(parts.deep_view() =~= Seq::<Seq<char>>::empty());
        assert(parts.deep_view() + (seq![split_commas_spec(s@)[0]] + split_commas_spec(
            s@,
        ).drop_first()) =~= split_commas_spec(s@));
    }
    while i < n
        invariant
            0 <= start <= i <= n,
            n == s@.len(),
            split_commas_spec(s@) =~= parts.deep_view() + (seq![
                s@.subrange(start as int, i as int) + split_commas_spec(s@.skip(i as int))[0],
            ] + split_commas_spec(s@.skip(i as int)).drop_first()),
        decreases n - i,
    {
        let c = s.get_char(i);
        proof {
            assert(s@.skip(i as int)[0] == s@[i as int]);
            assert(s@.skip(i as int).drop_first() =~= s@.skip(i + 1));
            lemma_split_commas_nonempty(s@.skip(i + 1));
        }
        if c == ',' {
            proof {
                assert(split_commas_spec(s@.skip(i as int)) =~= seq![Seq::<char>::empty()]
                    + split_commas_spec(s@.skip(i + 1)));
            }
            let done = String::from_str(s.substring_char(start, i));
            let ghost pre = parts;
            parts.push(done);
            proof {
                lemma_deep_view_push(pre, parts, done);
                assert(done@ + Seq::<char>::empty() =~= done@);
                assert(s@.subrange(i + 1, i + 1) =~= Seq::<char>::empty());
                assert(parts.deep_view() + (seq![
                    s@.subrange(i + 1, i + 1) + split_commas_spec(s@.skip(i + 1))[0],
                ] + split_commas_spec(s@.skip(i + 1)).drop_first()) =~= pre.deep_view() + (seq![
                    done@ + split_commas_spec(s@.skip(i as int))[0],
                ] + split_commas_spec(s@.skip(i as int)).drop_first()));
            }
            start = i + 1;
        } else {
            proof {
                assert(seq![c] + s@.skip(i + 1) =~= s@.skip(i as int));
                lemma_split_commas_cons(s@.skip(i + 1), c);
                assert(s@.subrange(start as int, i + 1) =~= s@.subrange(start as int, i as int)
                    + seq![c]);
                assert(s@.subrange(start as int, i + 1) + split_commas_spec(s@.skip(i + 1))[0]
                    =~= s@.subrange(start as int, i as int) + (seq![c] + split_commas_spec(
                    s@.skip(i + 1),
                )[0]));
                assert(split_commas_spec(s@.skip(i as int))[0] == seq![c] + split_commas_spec(
                    s@.skip(i + 1),
                )[0]);
                assert(split_commas_spec(s@.skip(i as int)).drop_first() =~= split_commas_spec(
                    s@.skip(i + 1),
                ).drop_first());
            }
        }
        i = i + 1;
    }
    proof {
        assert(s@.skip(n as int) =~= Seq::<char>::empty());
        assert(split_commas_spec(Seq::<char>::empty()) =~= seq![Seq::<char>::empty()]);
    }
    let done = String::from_str(s.substring_char(start, n));
    let ghost pre = parts;
    parts.push(done);
    proof {
        lemma_deep_view_push(pre, parts, done);
        assert(done@ + Seq::<char>::empty() =~= done@);
        assert(parts.deep_view() =~= split_commas_spec(s@));
    }
    parts
}

/// The projection of a record: the space-joined values of the named fields
/// in the explicit list's order, or of all fields in record order where no
/// list is given.  The error is the first named field the record lacks.
pub open spec fn project_spec(
    rec: Seq<(Seq<char>, Seq<char>)>,
    format: Option<Seq<char>>,
) -> Result<Seq<char>, Seq<char>> {
    match format {
        Some(f) => match lookup_all(rec, split_commas_spec(f)) {
            Err(name) => Err(name),
            Ok(vs) => Ok(join_with(" "@, vs)),
        },
        None => Ok(join_with(" "@, vals_of(rec))),
    }
}

/// Renders `rec` into one line exactly as [`project_spec`] describes.
pub fn project(rec: &Record, format: &Option<String>) -> (r: Result<String, GropError>)
    ensures
        r is Ok <==> project_spec(rec@, format.deep_view()) is Ok,
        r matches Ok(line) ==> project_spec(rec@, format.deep_view()) == Ok::<Seq<char>, Seq<char>>(
            line@,
        ),
        r matches Err(e) ==> (e matches GropError::MissingField(name) && project_spec(
            rec@,
            format.deep_view(),
        ) == Err::<Seq<char>, Seq<char>>(name@)),
{
    match format {
        Some(f) => {
            let ghost names = split_commas_spec(f@);
            let parts = split_commas(f.as_str());
            let mut vs: Vec<String> = Vec::new();
            let mut i: usize = 0;
            while i < parts.len()
                invariant
                    0 <= i <= parts.len(),
                    format is Some,
                    format->0 == *f,
                    names == split_commas_spec(f@),
                    names == parts.deep_view(),
                    names.len() == parts@.len(),
                    vs@.len() == i,
                    forall|j: int| 0 <= j < i ==> #[trigger] names[j] == parts@[j]@,
                    forall|j: int|
                        0 <= j < i ==> spec_get(rec@, #[trigger] names[j]) == Some(
                            vs.deep_view()[j],
                        ),
                decreases parts.len() - i,
            {
                proof {
                    assert(names[i as int] == parts@[i as int]@);
                }
                match rec.get(&parts[i]) {
                    Some(v) => {
                        let vl = v.clone();
                        let ghost pre = vs;
                        vs.push(vl);
                        proof {
                            lemma_deep_view_push(pre, vs, vl);
                        }
                    },
                    None => {
                        let name = parts[i].clone();
                        proof {
                            lemma_lookup_all_first_missing(rec@, names, i as int);
                            assert(name@ == names[i as int]);
                            assert(format is Some);
                            assert(format->0 == *f);
                            assert(format.deep_view() == Some(f@));
                        }
                        return Err(GropError::MissingField(name));
                    },
                }
                i = i + 1;
            }
            proof {
                lemma_lookup_all_some(rec@, names, vs.deep_view());
            }
            Ok(join_strings(&vs, " "))
        },
        None => {
            let vs = rec.values();
            Ok(join_strings(&vs, " "))
        },
    }
}

/// Round trip: for a record whose explicit projection list names exactly
/// the record's own fields, in the record's field order, the projected
/// line carries every field value exactly once, space-joined, in that
/// order — the very line the fallback projection (no explicit list)
/// renders.
pub proof fn lemma_projection_round_trip(rec: Seq<(Seq<char>, Seq<char>)>, f: Seq<char>)
    requires
        unique_keys(rec),
        split_commas_spec(f) == keys_of(rec),
    ensures
        project_spec(rec, Some(f)) == Ok::<Seq<char>, Seq<char>>(join_with(" "@, vals_of(rec))),
        project_spec(rec, Some(f)) == project_spec(rec, None),
{
    assert forall|j: int| 0 <= j < keys_of(rec).len() implies spec_get(
        rec,
        #[trigger] keys_of(rec)[j],
    ) == Some(vals_of(rec)[j]) by {
        assert(keys_of(rec)[j] == rec[j].0);
        assert(vals_of(rec)[j] == rec[j].1);
        lemma_unique_get_at(rec, j);
    }
    lemma_lookup_all_some(rec, keys_of(rec), vals_of(rec));
}

} // verus!
