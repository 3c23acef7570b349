//! The record model: the mapping from capture-field name to matched text
//! that one matched input line produces.
//!
//! A [`Record`] holds its fields as an association list sorted strictly by
//! field name, so that a record built from the same set of (name, value)
//! pairs is the same record whatever order the pattern engine handed the
//! pairs out in.  The fallback output projection walks this pinned order,
//! which keeps the whole pipeline deterministic.

use vstd::prelude::*;
use crate::text::{lex_lt, str_lt, lemma_lex_lt_irrefl, lemma_lex_lt_trans, lemma_lex_lt_connected,
    lemma_lex_lt_asym};

verus! {

/// First-match lookup in an association list of (name, value) pairs.
pub open spec fn spec_get(fs: Seq<(Seq<char>, Seq<char>)>, name: Seq<char>) -> Option<Seq<char>>
    decreases fs.len(),
{
    if fs.len() == 0 {
        None
    } else if fs[0].0 == name {
        Some(fs[0].1)
    } else {
        spec_get(fs.drop_first(), name)
    }
}

/// Whether some pair of `fs` carries the name `name`.
pub open spec fn has_key(fs: Seq<(Seq<char>, Seq<char>)>, name: Seq<char>) -> bool {
    exists|i: int| 0 <= i < fs.len() && (#[trigger] fs[i]).0 == name
}

pub proof fn lemma_get_some_iff_has_key(fs: Seq<(Seq<char>, Seq<char>)>, name: Seq<char>)
    ensures
        spec_get(fs, name) is Some <==> has_key(fs, name),
    decreases fs.len(),
{
    if fs.len() > 0 {
        lemma_get_some_iff_has_key(fs.drop_first(), name);
        if fs[0].0 == name {
        } else if has_key(fs, name) {
            let i = choose|i: int| 0 <= i < fs.len() && (#[trigger] fs[i]).0 == name;
            assert(fs.drop_first()[i - 1] == fs[i]);
        } else if has_key(fs.drop_first(), name) {
            let i = choose|i: int|
                0 <= i < fs.drop_first().len() && (#[trigger] fs.drop_first()[i]).0 == name;
            assert(fs[i + 1] == fs.drop_first()[i]);
        }
    }
}

/// The names of `fs`, in order.
pub open spec fn keys_of(fs: Seq<(Seq<char>, Seq<char>)>) -> Seq<Seq<char>> {
    fs.map_values(|p: (Seq<char>, Seq<char>)| p.0)
}

/// The values of `fs`, in order.
pub open spec fn vals_of(fs: Seq<(Seq<char>, Seq<char>)>) -> Seq<Seq<char>> {
    fs.map_values(|p: (Seq<char>, Seq<char>)| p.1)
}

/// No two pairs of `fs` carry the same name.
pub open spec fn unique_keys(fs: Seq<(Seq<char>, Seq<char>)>) -> bool {
    forall|i: int, j: int|
        0 <= i < j < fs.len() ==> (#[trigger] fs[i]).0 != (#[trigger] fs[j]).0
}

/// The names of `fs` are strictly increasing in [`lex_lt`] order.
pub open spec fn sorted_keys(fs: Seq<(Seq<char>, Seq<char>)>) -> bool {
    forall|i: int, j: int|
        0 <= i < j < fs.len() ==> lex_lt((#[trigger] fs[i]).0, (#[trigger] fs[j]).0)
}

pub proof fn lemma_sorted_keys_unique(fs: Seq<(Seq<char>, Seq<char>)>)
    requires
        sorted_keys(fs),
    ensures
        unique_keys(fs),
{
    assert forall|i: int, j: int| 0 <= i < j < fs.len() implies (#[trigger] fs[i]).0 != (
    #[trigger] fs[j]).0 by {
        lemma_lex_lt_irrefl(fs[i].0);
    }
}

/// Under a strictly sorted key order, no pair can carry a name below the
/// first pair's name.
proof fn lemma_sorted_no_key_below(fs: Seq<(Seq<char>, Seq<char>)>, name: Seq<char>)
    requires
        sorted_keys(fs),
        fs.len() > 0,
        lex_lt(name, fs[0].0),
    ensures
        !has_key(fs, name),
{
    assert forall|i: int| 0 <= i < fs.len() implies (#[trigger] fs[i]).0 != name by {
        if i == 0 {
            lemma_lex_lt_irrefl(name);
        } else {
            lemma_lex_lt_trans(name, fs[0].0, fs[i].0);
            lemma_lex_lt_irrefl(name);
        }
    }
}

pub proof fn lemma_sorted_tail(fs: Seq<(Seq<char>, Seq<char>)>)
    requires
        sorted_keys(fs),
        fs.len() > 0,
    ensures
        sorted_keys(fs.drop_first()),
{
    assert forall|i: int, j: int| 0 <= i < j < fs.drop_first().len() implies lex_lt(
        (#[trigger] fs.drop_first()[i]).0,
        (#[trigger] fs.drop_first()[j]).0,
    ) by {
        assert(fs.drop_first()[i] == fs[i + 1]);
        assert(fs.drop_first()[j] == fs[j + 1]);
    }
}

/// Insertion into a name-sorted association list that keeps the existing
/// value when the name is already present.
pub open spec fn sorted_insert_keep(
    fs: Seq<(Seq<char>, Seq<char>)>,
    name: Seq<char>,
    val: Seq<char>,
) -> Seq<(Seq<char>, Seq<char>)>
    decreases fs.len(),
{
    if fs.len() == 0 {
        seq![(name, val)]
    } else if fs[0].0 == name {
        fs
    } else if lex_lt(name, fs[0].0) {
        seq![(name, val)] + fs
    } else {
        seq![fs[0]] + sorted_insert_keep(fs.drop_first(), name, val)
    }
}

pub proof fn lemma_sorted_insert_keep_sorted(
    fs: Seq<(Seq<char>, Seq<char>)>,
    name: Seq<char>,
    val: Seq<char>,
)
    requires
        sorted_keys(fs),
    ensures
        sorted_keys(sorted_insert_keep(fs, name, val)),
    decreases fs.len(),
{
    let r = sorted_insert_keep(fs, name, val);
    if fs.len() == 0 {
    } else if fs[0].0 == name {
    } else if lex_lt(name, fs[0].0) {
        assert forall|i: int, j: int| 0 <= i < j < r.len() implies lex_lt(
            (#[trigger] r[i]).0,
            (#[trigger] r[j]).0,
        ) by {
            if i == 0 {
                if j > 1 {
                    lemma_lex_lt_trans(name, fs[0].0, fs[j - 1].0);
                }
            } else {
                assert(r[i] == fs[i - 1] && r[j] == fs[j - 1]);
            }
        }
    } else {
        lemma_lex_lt_connected(name, fs[0].0);
        assert(lex_lt(fs[0].0, name));
        let rt = sorted_insert_keep(fs.drop_first(), name, val);
        lemma_sorted_insert_keep_sorted(fs.drop_first(), name, val);
        // every key of the recursive result is either `name` or a key of the tail,
        // so the head stays strictly below them all
        assert forall|i: int, j: int| 0 <= i < j < r.len() implies lex_lt(
            (#[trigger] r[i]).0,
            (#[trigger] r[j]).0,
        ) by {
            if i == 0 {
                assert(r[j] == rt[j - 1]);
                lemma_sorted_insert_keep_key_source(fs.drop_first(), name, val, j - 1);
                if rt[j - 1].0 == name {
                } else {
                    let k = choose|k: int|
                        0 <= k < fs.drop_first().len() && (#[trigger] fs.drop_first()[k]).0 == rt[j
                            - 1].0;
                    assert(fs.drop_first()[k] == fs[k + 1]);
                }
            } else {
                assert(r[i] == rt[i - 1] && r[j] == rt[j - 1]);
            }
        }
    }
}

/// Every key of `sorted_insert_keep(fs, name, val)` is `name` or a key of `fs`.
proof fn lemma_sorted_insert_keep_key_source(
    fs: Seq<(Seq<char>, Seq<char>)>,
    name: Seq<char>,
    val: Seq<char>,
    i: int,
)
    requires
        0 <= i < sorted_insert_keep(fs, name, val).len(),
    ensures
        sorted_insert_keep(fs, name, val)[i].0 == name || has_key(
            fs,
            sorted_insert_keep(fs, name, val)[i].0,
        ),
    decreases fs.len(),
{
    let r = sorted_insert_keep(fs, name, val);
    if fs.len() == 0 {
    } else if fs[0].0 == name {
        assert(r[i] == fs[i]);
    } else if lex_lt(name, fs[0].0) {
        if i > 0 {
            assert(r[i] == fs[i - 1]);
        }
    } else {
        if i > 0 {
            lemma_sorted_insert_keep_key_source(fs.drop_first(), name, val, i - 1);
            let rt = sorted_insert_keep(fs.drop_first(), name, val);
            assert(r[i] == rt[i - 1]);
            if rt[i - 1].0 != name {
                let k = choose|k: int|
                    0 <= k < fs.drop_first().len() && (#[trigger] fs.drop_first()[k]).0 == rt[i
                        - 1].0;
                assert(fs[k + 1] == fs.drop_first()[k]);
            }
        }
    }
}

pub proof fn lemma_sorted_insert_keep_get(
    fs: Seq<(Seq<char>, Seq<char>)>,
    name: Seq<char>,
    val: Seq<char>,
    k: Seq<char>,
)
    requires
        sorted_keys(fs),
    ensures
        spec_get(sorted_insert_keep(fs, name, val), k) == if k == name {
            if has_key(fs, name) {
                spec_get(fs, name)
            } else {
                Some(val)
            }
        } else {
            spec_get(fs, k)
        },
    decreases fs.len(),
{
    let r = sorted_insert_keep(fs, name, val);
    lemma_get_some_iff_has_key(fs, name);
    if fs.len() == 0 {
        assert(r[0] == (name, val));
        if k != name {
            assert(r.drop_first() =~= Seq::<(Seq<char>, Seq<char>)>::empty());
            assert(spec_get(r.drop_first(), k) is None);
        }
    } else if fs[0].0 == name {
    } else if lex_lt(name, fs[0].0) {
        lemma_sorted_no_key_below(fs, name);
        assert(r[0] == (name, val));
        assert(r.drop_first() =~= fs);
    } else {
        lemma_lex_lt_connected(name, fs[0].0);
        lemma_sorted_tail(fs);
        assert(r[0] == fs[0]);
        lemma_sorted_insert_keep_get(fs.drop_first(), name, val, k);
        assert(r.drop_first() =~= sorted_insert_keep(fs.drop_first(), name, val));
        lemma_get_some_iff_has_key(fs.drop_first(), name);
        if has_key(fs, name) && !has_key(fs.drop_first(), name) {
            let i = choose|i: int| 0 <= i < fs.len() && (#[trigger] fs[i]).0 == name;
            assert(i == 0 || fs.drop_first()[i - 1] == fs[i]);
        }
        if has_key(fs.drop_first(), name) {
            let i = choose|i: int|
                0 <= i < fs.drop_first().len() && (#[trigger] fs.drop_first()[i]).0 == name;
            assert(fs[i + 1] == fs.drop_first()[i]);
        }
    }
}

/// The record built from a sequence of (name, value) pairs: pairs are taken
/// in order, sorted by name, and a name seen a second time keeps its first
/// value.
pub open spec fn from_pairs_spec(pairs: Seq<(Seq<char>, Seq<char>)>) -> Seq<
    (Seq<char>, Seq<char>),
>
    decreases pairs.len(),
{
    if pairs.len() == 0 {
        Seq::empty()
    } else {
        sorted_insert_keep(from_pairs_spec(pairs.drop_last()), pairs.last().0, pairs.last().1)
    }
}

pub proof fn lemma_from_pairs_sorted(pairs: Seq<(Seq<char>, Seq<char>)>)
    ensures
        sorted_keys(from_pairs_spec(pairs)),
    decreases pairs.len(),
{
    if pairs.len() > 0 {
        lemma_from_pairs_sorted(pairs.drop_last());
        lemma_sorted_insert_keep_sorted(
            from_pairs_spec(pairs.drop_last()),
            pairs.last().0,
            pairs.last().1,
        );
    }
}

/// Looking a name up after a `push` first consults the earlier pairs.
proof fn lemma_spec_get_push(fs: Seq<(Seq<char>, Seq<char>)>, p: (Seq<char>, Seq<char>), k: Seq<char>)
    ensures
        spec_get(fs.push(p), k) == if spec_get(fs, k) is Some {
            spec_get(fs, k)
        } else if p.0 == k {
            Some(p.1)
        } else {
            None
        },
    decreases fs.len(),
{
    if fs.len() == 0 {
        assert(fs.push(p)[0] == p);
        assert(spec_get(fs, k) is None);
        if p.0 == k {
            assert(spec_get(fs.push(p), k) == Some(p.1));
        } else {
            assert(fs.push(p).drop_first() =~= Seq::<(Seq<char>, Seq<char>)>::empty());
            assert(spec_get(fs.push(p).drop_first(), k) is None);
            assert(spec_get(fs.push(p), k) is None);
        }
    } else {
        assert(fs.push(p)[0] == fs[0]);
        lemma_spec_get_push(fs.drop_first(), p, k);
        assert(fs.push(p).drop_first() =~= fs.drop_first().push(p));
        if fs[0].0 == k {
            assert(spec_get(fs.push(p), k) == Some(fs[0].1));
            assert(spec_get(fs, k) == Some(fs[0].1));
        } else {
            assert(spec_get(fs.push(p), k) == spec_get(fs.drop_first().push(p), k));
            assert(spec_get(fs, k) == spec_get(fs.drop_first(), k));
        }
    }
}

/// Building a record from pairs preserves first-match lookup.
pub proof fn lemma_from_pairs_get(pairs: Seq<(Seq<char>, Seq<char>)>, k: Seq<char>)
    ensures
        spec_get(from_pairs_spec(pairs), k) == spec_get(pairs, k),
    decreases pairs.len(),
{
    if pairs.len() > 0 {
        let front = pairs.drop_last();
        let last = pairs.last();
        lemma_from_pairs_sorted(front);
        lemma_from_pairs_get(front, k);
        lemma_from_pairs_get(front, last.0);
        lemma_sorted_insert_keep_get(from_pairs_spec(front), last.0, last.1, k);
        lemma_get_some_iff_has_key(from_pairs_spec(front), last.0);
        lemma_spec_get_push(front, last, k);
        assert(front.push(last) =~= pairs);
    }
}

/// Looks every name of `names` up in `rec`, in order; the first absent
/// name is the error.
pub open spec fn lookup_all(
    rec: Seq<(Seq<char>, Seq<char>)>,
    names: Seq<Seq<char>>,
) -> Result<Seq<Seq<char>>, Seq<char>>
    decreases names.len(),
{
    if names.len() == 0 {
        Ok(Seq::empty())
    } else {
        match spec_get(rec, names[0]) {
            None => Err(names[0]),
            Some(v) => match lookup_all(rec, names.drop_first()) {
                Err(e) => Err(e),
                Ok(rest) => Ok(seq![v] + rest),
            },
        }
    }
}

/// When every name up to `i` resolves and `names[i]` does not, the lookup
/// of the whole list fails on `names[i]`.
pub proof fn lemma_lookup_all_first_missing(
    rec: Seq<(Seq<char>, Seq<char>)>,
    names: Seq<Seq<char>>,
    i: int,
)
    requires
        0 <= i < names.len(),
        forall|j: int| 0 <= j < i ==> spec_get(rec, #[trigger] names[j]) is Some,
        spec_get(rec, names[i]) is None,
    ensures
        lookup_all(rec, names) == Err::<Seq<Seq<char>>, Seq<char>>(names[i]),
    decreases i,
{
    if i > 0 {
        lemma_lookup_all_first_missing(rec, names.drop_first(), i - 1);
        assert(forall|j: int|
            0 <= j < i - 1 ==> names.drop_first()[j] == names[j + 1]);
        assert(names.drop_first()[i - 1] == names[i]);
    }
}

/// When every name resolves, the lookup of the whole list succeeds with the
/// values in order.
pub proof fn lemma_lookup_all_some(
    rec: Seq<(Seq<char>, Seq<char>)>,
    names: Seq<Seq<char>>,
    vals: Seq<Seq<char>>,
)
    requires
        vals.len() == names.len(),
        forall|j: int|
            0 <= j < names.len() ==> spec_get(rec, #[trigger] names[j]) == Some(vals[j]),
    ensures
        lookup_all(rec, names) == Ok::<Seq<Seq<char>>, Seq<char>>(vals),
    decreases names.len(),
{
    if names.len() > 0 {
        assert forall|j: int| 0 <= j < names.drop_first().len() implies spec_get(
            rec,
            #[trigger] names.drop_first()[j],
        ) == Some(vals.drop_first()[j]) by {
            assert(names.drop_first()[j] == names[j + 1]);
            assert(vals.drop_first()[j] == vals[j + 1]);
        }
        lemma_lookup_all_some(rec, names.drop_first(), vals.drop_first());
        assert(spec_get(rec, names[0]) == Some(vals[0]));
        assert(lookup_all(rec, names.drop_first()) == Ok::<Seq<Seq<char>>, Seq<char>>(
            vals.drop_first(),
        ));
        assert(lookup_all(rec, names) == Ok::<Seq<Seq<char>>, Seq<char>>(
            seq![vals[0]] + vals.drop_first(),
        ));
        assert(seq![vals[0]] + vals.drop_first() =~= vals);
    } else {
        assert(vals =~= Seq::<Seq<char>>::empty());
    }
}

/// Replacement of the value carried under `name`, or appending of the pair
/// at the end where the name is absent — the buffer mutation the merge
/// engine performs per absorbed field.
pub open spec fn set_field_spec(
    fs: Seq<(Seq<char>, Seq<char>)>,
    name: Seq<char>,
    val: Seq<char>,
) -> Seq<(Seq<char>, Seq<char>)>
    decreases fs.len(),
{
    if fs.len() == 0 {
        seq![(name, val)]
    } else if fs[0].0 == name {
        seq![(name, val)] + fs.drop_first()
    } else {
        seq![fs[0]] + set_field_spec(fs.drop_first(), name, val)
    }
}

pub proof fn lemma_spec_get_skip(fs: Seq<(Seq<char>, Seq<char>)>, name: Seq<char>, i: int)
    requires
        0 <= i <= fs.len(),
        forall|j: int| 0 <= j < i ==> (#[trigger] fs[j]).0 != name,
    ensures
        spec_get(fs, name) == spec_get(fs.skip(i), name),
    decreases i,
{
    if i > 0 {
        lemma_spec_get_skip(fs.drop_first(), name, i - 1);
        assert(fs.drop_first().skip(i - 1) =~= fs.skip(i));
        assert(forall|j: int|
            0 <= j < i - 1 ==> (#[trigger] fs.drop_first()[j]).0 == fs[j + 1].0);
    } else {
        assert(fs.skip(0) =~= fs);
    }
}

proof fn lemma_set_field_skip(
    fs: Seq<(Seq<char>, Seq<char>)>,
    name: Seq<char>,
    val: Seq<char>,
    i: int,
)
    requires
        0 <= i <= fs.len(),
        forall|j: int| 0 <= j < i ==> (#[trigger] fs[j]).0 != name,
    ensures
        set_field_spec(fs, name, val) == fs.take(i) + set_field_spec(fs.skip(i), name, val),
    decreases i,
{
    if i > 0 {
        lemma_set_field_skip(fs.drop_first(), name, val, i - 1);
        assert(fs.drop_first().skip(i - 1) =~= fs.skip(i));
        assert(fs.drop_first().take(i - 1) =~= fs.take(i).drop_first());
        assert(set_field_spec(fs, name, val) =~= fs.take(i) + set_field_spec(
            fs.skip(i),
            name,
            val,
        ));
    } else {
        assert(fs.skip(0) =~= fs);
        assert(fs.take(0) + set_field_spec(fs, name, val) =~= set_field_spec(fs, name, val));
    }
}

proof fn lemma_sorted_insert_keep_skip(
    fs: Seq<(Seq<char>, Seq<char>)>,
    name: Seq<char>,
    val: Seq<char>,
    i: int,
)
    requires
        0 <= i <= fs.len(),
        forall|j: int| 0 <= j < i ==> lex_lt((#[trigger] fs[j]).0, name),
    ensures
        sorted_insert_keep(fs, name, val) == fs.take(i) + sorted_insert_keep(
            fs.skip(i),
            name,
            val,
        ),
    decreases i,
{
    if i > 0 {
        lemma_lex_lt_irrefl(name);
        lemma_lex_lt_asym(fs[0].0, name);
        assert(fs[0].0 != name) by {
            if fs[0].0 == name {
                assert(lex_lt(name, name));
            }
        }
        lemma_sorted_insert_keep_skip(fs.drop_first(), name, val, i - 1);
        assert(fs.drop_first().skip(i - 1) =~= fs.skip(i));
        assert(fs.drop_first().take(i - 1) =~= fs.take(i).drop_first());
        assert(sorted_insert_keep(fs, name, val) =~= fs.take(i) + sorted_insert_keep(
            fs.skip(i),
            name,
            val,
        ));
    } else {
        assert(fs.skip(0) =~= fs);
        assert(fs.take(0) + sorted_insert_keep(fs, name, val) =~= sorted_insert_keep(
            fs,
            name,
            val,
        ));
    }
}

proof fn lemma_unique_tail(fs: Seq<(Seq<char>, Seq<char>)>)
    requires
        unique_keys(fs),
        fs.len() > 0,
    ensures
        unique_keys(fs.drop_first()),
{
    assert forall|i: int, j: int| 0 <= i < j < fs.drop_first().len() implies (
    #[trigger] fs.drop_first()[i]).0 != (#[trigger] fs.drop_first()[j]).0 by {
        assert(fs.drop_first()[i] == fs[i + 1]);
        assert(fs.drop_first()[j] == fs[j + 1]);
    }
}

/// Under unique keys, lookup of the `i`-th name returns the `i`-th value.
pub proof fn lemma_unique_get_at(fs: Seq<(Seq<char>, Seq<char>)>, i: int)
    requires
        unique_keys(fs),
        0 <= i < fs.len(),
    ensures
        spec_get(fs, fs[i].0) == Some(fs[i].1),
    decreases i,
{
    if i > 0 {
        assert(fs[0].0 != fs[i].0);
        lemma_unique_tail(fs);
        lemma_unique_get_at(fs.drop_first(), i - 1);
        assert(fs.drop_first()[i - 1] == fs[i]);
    }
}

/// Two association lists with strictly sorted names and the same lookup
/// function are the same list.
proof fn lemma_sorted_eq_by_get(x: Seq<(Seq<char>, Seq<char>)>, y: Seq<(Seq<char>, Seq<char>)>)
    requires
        sorted_keys(x),
        sorted_keys(y),
        forall|k: Seq<char>| #[trigger] spec_get(x, k) == spec_get(y, k),
    ensures
        x == y,
    decreases x.len(),
{
    if x.len() == 0 && y.len() == 0 {
        assert(x =~= y);
    } else if x.len() == 0 {
        assert(spec_get(y, y[0].0) == Some(y[0].1));
        assert(spec_get(x, y[0].0) is None);
    } else if y.len() == 0 {
        assert(spec_get(x, x[0].0) == Some(x[0].1));
        assert(spec_get(y, x[0].0) is None);
    } else {
        assert(spec_get(x, x[0].0) == Some(x[0].1));
        assert(spec_get(y, y[0].0) == Some(y[0].1));
        lemma_get_some_iff_has_key(y, x[0].0);
        lemma_get_some_iff_has_key(x, y[0].0);
        if x[0].0 != y[0].0 {
            lemma_lex_lt_connected(x[0].0, y[0].0);
            if lex_lt(x[0].0, y[0].0) {
                lemma_sorted_no_key_below(y, x[0].0);
            } else {
                lemma_sorted_no_key_below(x, y[0].0);
            }
            assert(false);
        }
        assert(x[0].1 == y[0].1);
        assert(x[0] == (x[0].0, x[0].1));
        assert(y[0] == (y[0].0, y[0].1));
        lemma_sorted_tail(x);
        lemma_sorted_tail(y);
        assert forall|k: Seq<char>| #[trigger] spec_get(x.drop_first(), k) == spec_get(
            y.drop_first(),
            k,
        ) by {
            if k == x[0].0 {
                assert forall|i: int| 0 <= i < x.drop_first().len() implies (
                #[trigger] x.drop_first()[i]).0 != k by {
                    assert(x.drop_first()[i] == x[i + 1]);
                    lemma_lex_lt_irrefl(k);
                }
                assert forall|i: int| 0 <= i < y.drop_first().len() implies (
                #[trigger] y.drop_first()[i]).0 != k by {
                    assert(y.drop_first()[i] == y[i + 1]);
                    lemma_lex_lt_irrefl(k);
                }
                lemma_get_some_iff_has_key(x.drop_first(), k);
                lemma_get_some_iff_has_key(y.drop_first(), k);
            } else {
                assert(spec_get(x, k) == spec_get(x.drop_first(), k));
                assert(spec_get(y, k) == spec_get(y.drop_first(), k));
            }
        }
        lemma_sorted_eq_by_get(x.drop_first(), y.drop_first());
        assert(x.len() == y.len());
        assert forall|k: int| 0 <= k < x.len() implies x[k] == y[k] by {
            if k > 0 {
                assert(x.drop_first()[k - 1] == x[k]);
                assert(y.drop_first()[k - 1] == y[k]);
            }
        }
        assert(x =~= y);
    }
}

/// The record built from a set of (name, value) pairs does not depend on
/// the order in which the pairs arrive: as long as no name is repeated, any
/// two arrival orders of the same pairs build the same record.  This is
/// what makes a run deterministic although the pattern engine hands capture
/// pairs out in an unspecified order.
pub proof fn lemma_from_pairs_order_insensitive(
    p1: Seq<(Seq<char>, Seq<char>)>,
    p2: Seq<(Seq<char>, Seq<char>)>,
)
    requires
        unique_keys(p1),
        unique_keys(p2),
        p1.to_multiset() == p2.to_multiset(),
    ensures
        from_pairs_spec(p1) == from_pairs_spec(p2),
{
    broadcast use vstd::seq_lib::group_to_multiset_ensures;

    assert forall|k: Seq<char>| #[trigger] spec_get(p1, k) == spec_get(p2, k) by {
        lemma_get_some_iff_has_key(p1, k);
        lemma_get_some_iff_has_key(p2, k);
        if has_key(p1, k) {
            let i = choose|i: int| 0 <= i < p1.len() && (#[trigger] p1[i]).0 == k;
            lemma_unique_get_at(p1, i);
            assert(p1.contains(p1[i]));
            vstd::seq_lib::to_multiset_contains(p1, p1[i]);
            vstd::seq_lib::to_multiset_contains(p2, p1[i]);
            assert(p2.contains(p1[i]));
            let j = choose|j: int| 0 <= j < p2.len() && p2[j] == p1[i];
            lemma_unique_get_at(p2, j);
        } else if has_key(p2, k) {
            let j = choose|j: int| 0 <= j < p2.len() && (#[trigger] p2[j]).0 == k;
            assert(p2.contains(p2[j]));
            vstd::seq_lib::to_multiset_contains(p2, p2[j]);
            vstd::seq_lib::to_multiset_contains(p1, p2[j]);
            assert(p1.contains(p2[j]));
            let i = choose|i: int| 0 <= i < p1.len() && p1[i] == p2[j];
            assert(p1[i].0 == k);
            assert(false);
        }
    }
    lemma_from_pairs_sorted(p1);
    lemma_from_pairs_sorted(p2);
    assert forall|k: Seq<char>| #[trigger] spec_get(from_pairs_spec(p1), k) == spec_get(
        from_pairs_spec(p2),
        k,
    ) by {
        lemma_from_pairs_get(p1, k);
        lemma_from_pairs_get(p2, k);
    }
    lemma_sorted_eq_by_get(from_pairs_spec(p1), from_pairs_spec(p2));
}

/// Pushing onto a vector pushes the element's deep view onto the vector's.
pub proof fn lemma_deep_view_push<T: DeepView>(v: Vec<T>, w: Vec<T>, p: T)
    requires
        w@ == v@.push(p),
    ensures
        w.deep_view() =~= v.deep_view().push(p.deep_view()),
{
    assert forall|k: int| 0 <= k < w@.len() implies w.deep_view()[k] == v.deep_view().push(
        p.deep_view(),
    )[k] by {
        if k < v@.len() {
            assert(w@[k] == v@[k]);
        } else {
            assert(w@[k] == p);
        }
    }
}

/// A record: the mapping from field name to field value produced by one
/// matched line (and reused as the merge engine's mutable buffer).  Fields
/// built by [`Record::from_pairs`] stand sorted by name.
pub struct Record {
    fields: Vec<(String, String)>,
}

impl View for Record {
    type V = Seq<(Seq<char>, Seq<char>)>;

    closed spec fn view(&self) -> Seq<(Seq<char>, Seq<char>)> {
        self.fields.deep_view()
    }
}

impl DeepView for Record {
    type V = Seq<(Seq<char>, Seq<char>)>;

    open spec fn deep_view(&self) -> Seq<(Seq<char>, Seq<char>)> {
        self.view()
    }
}

impl Record {
    /// Well-formedness: no field name occurs twice.
    pub open spec fn wf(self) -> bool {
        unique_keys(self@)
    }

    /// The empty record.
    pub fn new() -> (r: Record)
        ensures
            r@ == Seq::<(Seq<char>, Seq<char>)>::empty(),
    {
        let r = Record { fields: Vec::new() };
        proof {
            assert(r@ =~= Seq::<(Seq<char>, Seq<char>)>::empty());
        }
        r
    }

    pub fn len(&self) -> (n: usize)
        ensures
            n == self@.len(),
    {
        self.fields.len()
    }

    /// A copy of this record with the same fields.
    pub fn duplicate(&self) -> (r: Record)
        ensures
            r@ == self@,
    {
        let mut fields: Vec<(String, String)> = Vec::new();
        let mut i: usize = 0;
        while i < self.fields.len()
            invariant
                0 <= i <= self.fields.len(),
                fields.deep_view() =~= self.fields.deep_view().take(i as int),
            decreases self.fields.len() - i,
        {
            let nm = self.fields[i].0.clone();
            let vl = self.fields[i].1.clone();
            let ghost pre = fields;
            fields.push((nm, vl));
            proof {
                lemma_deep_view_push(pre, fields, (nm, vl));
                assert(self.fields.deep_view()[i as int] == (nm@, vl@));
                assert(fields.deep_view() =~= self.fields.deep_view().take(i + 1 as int));
            }
            i = i + 1;
        }
        let r = Record { fields };
        proof {
            assert(self.fields.deep_view().take(self.fields.len() as int) =~= self@);
        }
        r
    }

    /// Looks the field `name` up, returning the value of its first
    /// occurrence.
    pub fn get(&self, name: &String) -> (r: Option<&String>)
        ensures
            r is Some <==> spec_get(self@, name@) is Some,
            r matches Some(v) ==> spec_get(self@, name@) == Some(v@),
    {
        let mut i: usize = 0;
        while i < self.fields.len()
            invariant
                0 <= i <= self.fields.len(),
                forall|j: int| 0 <= j < i ==> (#[trigger] self@[j]).0 != name@,
            decreases self.fields.len() - i,
        {
            if self.fields[i].0 == *name {
                proof {
                    lemma_spec_get_skip(self@, name@, i as int);
                    assert(self@.skip(i as int)[0] == self@[i as int]);
                }
                return Some(&self.fields[i].1);
            }
            i = i + 1;
        }
        proof {
            lemma_spec_get_skip(self@, name@, self@.len() as int);
            assert(self@.skip(self@.len() as int) =~= Seq::<(Seq<char>, Seq<char>)>::empty());
        }
        None
    }

    /// Sets the value of `name`, appending the field at the end where it is
    /// absent.
    pub fn set(&mut self, name: &String, val: String)
        ensures
            final(self)@ == set_field_spec(old(self)@, name@, val@),
    {
        let mut i: usize = 0;
        while i < self.fields.len()
            invariant
                0 <= i <= self.fields.len(),
                self == old(self),
                forall|j: int| 0 <= j < i ==> (#[trigger] self@[j]).0 != name@,
            decreases self.fields.len() - i,
        {
            if self.fields[i].0 == *name {
                let nm = name.clone();
                self.fields.set(i, (nm, val));
                proof {
                    lemma_set_field_skip(old(self)@, name@, val@, i as int);
                    assert(old(self)@.skip(i as int)[0] == old(self)@[i as int]);
                    assert(old(self)@.skip(i as int).drop_first() =~= old(self)@.skip(i + 1));
                    assert(final(self)@ =~= old(self)@.take(i as int) + (seq![
                        (name@, val@),
                    ] + old(self)@.skip(i + 1)));
                }
                return ;
            }
            i = i + 1;
        }
        let nm = name.clone();
        self.fields.push((nm, val));
        proof {
            lemma_set_field_skip(old(self)@, name@, val@, old(self)@.len() as int);
            assert(old(self)@.skip(old(self)@.len() as int) =~= Seq::<
                (Seq<char>, Seq<char>),
            >::empty());
            assert(final(self)@ =~= old(self)@.take(old(self)@.len() as int) + seq![
                (name@, val@),
            ]);
        }
    }

    /// Inserts `name` in name order, keeping the present value where the
    /// name already occurs.
    fn insert_keep(&mut self, name: &String, val: String)
        requires
            sorted_keys(old(self)@),
        ensures
            final(self)@ == sorted_insert_keep(old(self)@, name@, val@),
            sorted_keys(final(self)@),
    {
        proof {
            lemma_sorted_insert_keep_sorted(old(self)@, name@, val@);
        }
        let mut i: usize = 0;
        while i < self.fields.len() && str_lt(self.fields[i].0.as_str(), name.as_str())
            invariant
                0 <= i <= self.fields.len(),
                self == old(self),
                forall|j: int| 0 <= j < i ==> lex_lt((#[trigger] self@[j]).0, name@),
            decreases self.fields.len() - i,
        {
            i = i + 1;
        }
        proof {
            lemma_sorted_insert_keep_skip(old(self)@, name@, val@, i as int);
        }
        if i < self.fields.len() && self.fields[i].0 == *name {
            proof {
                assert(old(self)@.skip(i as int)[0] == old(self)@[i as int]);
                assert(old(self)@.take(i as int) + old(self)@.skip(i as int) =~= old(self)@);
            }
            return ;
        }
        let nm = name.clone();
        self.fields.insert(i, (nm, val));
        proof {
            let fs = old(self)@;
            if i < fs.len() {
                assert(fs.skip(i as int)[0] == fs[i as int]);
                crate::text::lemma_lex_lt_connected(name@, fs[i as int].0);
            } else {
                assert(fs.skip(i as int) =~= Seq::<(Seq<char>, Seq<char>)>::empty());
            }
            assert(sorted_insert_keep(fs.skip(i as int), name@, val@) =~= seq![
                (name@, val@),
            ] + fs.skip(i as int));
            assert(final(self)@ =~= fs.take(i as int) + (seq![(name@, val@)] + fs.skip(
                i as int,
            )));
        }
    }

    /// Builds a record from (name, value) pairs as [`from_pairs_spec`]
    /// describes: sorted by name, first value kept for a repeated name.
    pub fn from_pairs(pairs: Vec<(String, String)>) -> (r: Record)
        ensures
            r@ == from_pairs_spec(pairs.deep_view()),
            sorted_keys(r@),
            r.wf(),
    {
        let ghost dv = pairs.deep_view();
        let mut r = Record::new();
        let mut i: usize = 0;
        while i < pairs.len()
            invariant
                0 <= i <= pairs.len(),
                dv == pairs.deep_view(),
                dv.len() == pairs.len(),
                r@ == from_pairs_spec(dv.take(i as int)),
                sorted_keys(r@),
            decreases pairs.len() - i,
        {
            let nm = pairs[i].0.clone();
            let vl = pairs[i].1.clone();
            r.insert_keep(&nm, vl);
            proof {
                assert(dv[i as int] == (pairs[i as int].0@, pairs[i as int].1@));
                assert(dv.take(i + 1 as int).drop_last() =~= dv.take(i as int));
                assert(dv.take(i + 1 as int).last() == dv[i as int]);
            }
            i = i + 1;
        }
        proof {
            assert(dv.take(dv.len() as int) =~= dv);
            lemma_sorted_keys_unique(r@);
        }
        r
    }

    /// The field names, in the record's field order.
    pub fn names(&self) -> (r: Vec<String>)
        ensures
            r.deep_view() == keys_of(self@),
    {
        let mut r: Vec<String> = Vec::new();
        let mut i: usize = 0;
        while i < self.fields.len()
            invariant
                0 <= i <= self.fields.len(),
                r.deep_view() =~= keys_of(self@).take(i as int),
            decreases self.fields.len() - i,
        {
            let nm = self.fields[i].0.clone();
            let ghost pre = r;
            r.push(nm);
            proof {
                lemma_deep_view_push(pre, r, nm);
                assert(keys_of(self@)[i as int] == self@[i as int].0);
                assert(self.fields.deep_view()[i as int] == (nm@, self.fields@[i as int].1@));
                assert(r.deep_view() =~= keys_of(self@).take(i + 1 as int));
            }
            i = i + 1;
        }
        proof {
            assert(keys_of(self@).take(self@.len() as int) =~= keys_of(self@));
        }
        r
    }

    /// The field values, in the record's field order.
    pub fn values(&self) -> (r: Vec<String>)
        ensures
            r.deep_view() == vals_of(self@),
    {
        let mut r: Vec<String> = Vec::new();
        let mut i: usize = 0;
        while i < self.fields.len()
            invariant
                0 <= i <= self.fields.len(),
                r.deep_view() =~= vals_of(self@).take(i as int),
            decreases self.fields.len() - i,
        {
            let vl = self.fields[i].1.clone();
            let ghost pre = r;
            r.push(vl);
            proof {
                lemma_deep_view_push(pre, r, vl);
                assert(vals_of(self@)[i as int] == self@[i as int].1);
                assert(self.fields.deep_view()[i as int] == (self.fields@[i as int].0@, vl@));
                assert(r.deep_view() =~= vals_of(self@).take(i + 1 as int));
            }
            i = i + 1;
        }
        proof {
            assert(vals_of(self@).take(self@.len() as int) =~= vals_of(self@));
        }
        r
    }
}

} // verus!
