//! The pattern registry: the named pattern definitions known to a run, kept
//! as an explicit value so that callers construct and pass it rather than
//! share ambient state.
//!
//! Entries stand sorted by pattern name, which makes the listing of all
//! names deterministic and already in the order a listing presents them.

use vstd::prelude::*;
use crate::errors::GropError;
use crate::record::{spec_get, has_key, keys_of, sorted_keys, lemma_spec_get_skip,
    lemma_deep_view_push, lemma_sorted_tail};
use crate::text::{lex_lt, str_lt, has_space, split2, split2_spec, join_with,
    lemma_lex_lt_irrefl, lemma_lex_lt_trans, lemma_lex_lt_asym, lemma_lex_lt_connected};

verus! {

/// Insertion into a name-sorted association list that replaces the value
/// when the name is already present.
pub open spec fn sorted_insert_replace(
    fs: Seq<(Seq<char>, Seq<char>)>,
    name: Seq<char>,
    val: Seq<char>,
) -> Seq<(Seq<char>, Seq<char>)>
    decreases fs.len(),
{
    if fs.len() == 0 {
        seq![(name, val)]
    } else if fs[0].0 == name {
        seq![(name, val)] + fs.drop_first()
    } else if lex_lt(name, fs[0].0) {
        seq![(name, val)] + fs
    } else {
        seq![fs[0]] + sorted_insert_replace(fs.drop_first(), name, val)
    }
}

/// Every key of `sorted_insert_replace(fs, name, val)` is `name` or a key
/// of `fs`.
proof fn lemma_sorted_insert_replace_key_source(
    fs: Seq<(Seq<char>, Seq<char>)>,
    name: Seq<char>,
    val: Seq<char>,
    i: int,
)
    requires
        0 <= i < sorted_insert_replace(fs, name, val).len(),
    ensures
        sorted_insert_replace(fs, name, val)[i].0 == name || has_key(
            fs,
            sorted_insert_replace(fs, name, val)[i].0,
        ),
    decreases fs.len(),
{
    let r = sorted_insert_replace(fs, name, val);
    if fs.len() == 0 {
    } else if fs[0].0 == name {
        if i > 0 {
            assert(r[i] == fs.drop_first()[i - 1]);
            assert(fs.drop_first()[i - 1] == fs[i]);
        }
    } else if lex_lt(name, fs[0].0) {
        if i > 0 {
            assert(r[i] == fs[i - 1]);
        }
    } else {
        if i > 0 {
            lemma_sorted_insert_replace_key_source(fs.drop_first(), name, val, i - 1);
            let rt = sorted_insert_replace(fs.drop_first(), name, val);
            assert(r[i] == rt[i - 1]);
            if rt[i - 1].0 != name {
                let k = choose|k: int|
                    0 <= k < fs.drop_first().len() && (#[trigger] fs.drop_first()[k]).0 == rt[i
                        - 1].0;
                assert(fs[k + 1] == fs.drop_first()[k]);
            }
        }
    }
}

pub proof fn lemma_sorted_insert_replace_sorted(
    fs: Seq<(Seq<char>, Seq<char>)>,
    name: Seq<char>,
    val: Seq<char>,
)
    requires
        sorted_keys(fs),
    ensures
        sorted_keys(sorted_insert_replace(fs, name, val)),
    decreases fs.len(),
{
    let r = sorted_insert_replace(fs, name, val);
    if fs.len() == 0 {
    } else if fs[0].0 == name {
        assert forall|i: int, j: int| 0 <= i < j < r.len() implies lex_lt(
            (#[trigger] r[i]).0,
            (#[trigger] r[j]).0,
        ) by {
            if i == 0 {
                assert(r[j] == fs[j]);
            } else {
                assert(r[i] == fs[i] && r[j] == fs[j]);
            }
        }
    } else if lex_lt(name, fs[0].0) {
        assert forall|i: int, j: int| 0 <= i < j < r.len() implies lex_lt(
            (#[trigger] r[i]).0,
            (#[trigger] r[j]).0,
        ) by {
            if i == 0 {
                if j > 1 {
                    lemma_lex_lt_trans(name, fs[0].0, fs[j - 1].0);
                }
            } else {
                assert(r[i] == fs[i - 1] && r[j] == fs[j - 1]);
            }
        }
    } else {
        lemma_lex_lt_connected(name, fs[0].0);
        assert(lex_lt(fs[0].0, name));
        lemma_sorted_tail(fs);
        let rt = sorted_insert_replace(fs.drop_first(), name, val);
        lemma_sorted_insert_replace_sorted(fs.drop_first(), name, val);
        assert forall|i: int, j: int| 0 <= i < j < r.len() implies lex_lt(
            (#[trigger] r[i]).0,
            (#[trigger] r[j]).0,
        ) by {
            if i == 0 {
                assert(r[j] == rt[j - 1]);
                lemma_sorted_insert_replace_key_source(fs.drop_first(), name, val, j - 1);
                if rt[j - 1].0 != name {
                    let k = choose|k: int|
                        0 <= k < fs.drop_first().len() && (#[trigger] fs.drop_first()[k]).0 == rt[j
                            - 1].0;
                    assert(fs.drop_first()[k] == fs[k + 1]);
                }
            } else {
                assert(r[i] == rt[i - 1] && r[j] == rt[j - 1]);
            }
        }
    }
}

proof fn lemma_sorted_insert_replace_skip(
    fs: Seq<(Seq<char>, Seq<char>)>,
    name: Seq<char>,
    val: Seq<char>,
    i: int,
)
    requires
        0 <= i <= fs.len(),
        forall|j: int| 0 <= j < i ==> lex_lt((#[trigger] fs[j]).0, name),
    ensures
        sorted_insert_replace(fs, name, val) == fs.take(i) + sorted_insert_replace(
            fs.skip(i),
            name,
            val,
        ),
    decreases i,
{
    if i > 0 {
        lemma_lex_lt_irrefl(name);
        lemma_lex_lt_asym(fs[0].0, name);
        assert(fs[0].0 != name) by {
            if fs[0].0 == name {
                assert(lex_lt(name, name));
            }
        }
        lemma_sorted_insert_replace_skip(fs.drop_first(), name, val, i - 1);
        assert(fs.drop_first().skip(i - 1) =~= fs.skip(i));
        assert(fs.drop_first().take(i - 1) =~= fs.take(i).drop_first());
        assert(sorted_insert_replace(fs, name, val) =~= fs.take(i) + sorted_insert_replace(
            fs.skip(i),
            name,
            val,
        ));
    } else {
        assert(fs.skip(0) =~= fs);
        assert(fs.take(0) + sorted_insert_replace(fs, name, val) =~= sorted_insert_replace(
            fs,
            name,
            val,
        ));
    }
}

/// The registry built by inserting (name, body) pairs in order, later
/// definitions of a name replacing earlier ones.
pub open spec fn registry_from_pairs_spec(pairs: Seq<(Seq<char>, Seq<char>)>) -> Seq<
    (Seq<char>, Seq<char>),
>
    decreases pairs.len(),
{
    if pairs.len() == 0 {
        Seq::empty()
    } else {
        sorted_insert_replace(
            registry_from_pairs_spec(pairs.drop_last()),
            pairs.last().0,
            pairs.last().1,
        )
    }
}

/// The registry of named pattern definitions, sorted by name.
pub struct PatternRegistry {
    entries: Vec<(String, String)>,
}

impl View for PatternRegistry {
    type V = Seq<(Seq<char>, Seq<char>)>;

    closed spec fn view(&self) -> Seq<(Seq<char>, Seq<char>)> {
        self.entries.deep_view()
    }
}

impl PatternRegistry {
    /// Well-formedness: the names stand strictly sorted.
    pub open spec fn wf(self) -> bool {
        sorted_keys(self@)
    }

    /// The empty registry.
    pub fn new() -> (r: PatternRegistry)
        ensures
            r@ == Seq::<(Seq<char>, Seq<char>)>::empty(),
            r.wf(),
    {
        let r = PatternRegistry { entries: Vec::new() };
        proof {
            assert(r@ =~= Seq::<(Seq<char>, Seq<char>)>::empty());
        }
        r
    }

    /// Registers `name`, replacing any earlier definition of it.
    pub fn insert(&mut self, name: String, value: String)
        requires
            old(self).wf(),
        ensures
            final(self)@ == sorted_insert_replace(old(self)@, name@, value@),
            final(self).wf(),
    {
        proof {
            lemma_sorted_insert_replace_sorted(old(self)@, name@, value@);
        }
        let mut i: usize = 0;
        while i < self.entries.len() && str_lt(self.entries[i].0.as_str(), name.as_str())
            invariant
                0 <= i <= self.entries.len(),
                self == old(self),
                forall|j: int| 0 <= j < i ==> lex_lt((#[trigger] self@[j]).0, name@),
            decreases self.entries.len() - i,
        {
            i = i + 1;
        }
        proof {
            lemma_sorted_insert_replace_skip(old(self)@, name@, value@, i as int);
        }
        if i < self.entries.len() && self.entries[i].0 == name {
            self.entries.set(i, (name, value));
            proof {
                let fs = old(self)@;
                assert(fs.skip(i as int)[0] == fs[i as int]);
                assert(fs.skip(i as int).drop_first() =~= fs.skip(i + 1));
                assert(final(self)@ =~= fs.take(i as int) + (seq![(name@, value@)] + fs.skip(
                    i + 1,
                )));
            }
        } else {
            self.entries.insert(i, (name, value));
            proof {
                let fs = old(self)@;
                if i < fs.len() {
                    assert(fs.skip(i as int)[0] == fs[i as int]);
                    lemma_lex_lt_connected(name@, fs[i as int].0);
                } else {
                    assert(fs.skip(i as int) =~= Seq::<(Seq<char>, Seq<char>)>::empty());
                }
                assert(sorted_insert_replace(fs.skip(i as int), name@, value@) =~= seq![
                    (name@, value@),
                ] + fs.skip(i as int));
                assert(final(self)@ =~= fs.take(i as int) + (seq![(name@, value@)] + fs.skip(
                    i as int,
                )));
            }
        }
    }

    /// Builds a registry from (name, body) pairs taken in order.
    pub fn from_pairs(pairs: Vec<(String, String)>) -> (r: PatternRegistry)
        ensures
            r@ == registry_from_pairs_spec(pairs.deep_view()),
            r.wf(),
    {
        let ghost dv = pairs.deep_view();
        let mut r = PatternRegistry::new();
        let mut i: usize = 0;
        while i < pairs.len()
            invariant
                0 <= i <= pairs.len(),
                dv == pairs.deep_view(),
                dv.len() == pairs.len(),
                r@ == registry_from_pairs_spec(dv.take(i as int)),
                r.wf(),
            decreases pairs.len() - i,
        {
            let nm = pairs[i].0.clone();
            let vl = pairs[i].1.clone();
            r.insert(nm, vl);
            proof {
                assert(dv[i as int] == (pairs[i as int].0@, pairs[i as int].1@));
                assert(dv.take(i + 1 as int).drop_last() =~= dv.take(i as int));
                assert(dv.take(i + 1 as int).last() == dv[i as int]);
            }
            i = i + 1;
        }
        proof {
            assert(dv.take(dv.len() as int) =~= dv);
        }
        r
    }

    /// Looks a pattern name up.
    pub fn get(&self, name: &String) -> (r: Option<&String>)
        ensures
            r is Some <==> spec_get(self@, name@) is Some,
            r matches Some(v) ==> spec_get(self@, name@) == Some(v@),
    {
        let mut i: usize = 0;
        while i < self.entries.len()
            invariant
                0 <= i <= self.entries.len(),
                forall|j: int| 0 <= j < i ==> (#[trigger] self@[j]).0 != name@,
            decreases self.entries.len() - i,
        {
            if self.entries[i].0 == *name {
                proof {
                    lemma_spec_get_skip(self@, name@, i as int);
                    assert(self@.skip(i as int)[0] == self@[i as int]);
                }
                return Some(&self.entries[i].1);
            }
            i = i + 1;
        }
        proof {
            lemma_spec_get_skip(self@, name@, self@.len() as int);
            assert(self@.skip(self@.len() as int) =~= Seq::<(Seq<char>, Seq<char>)>::empty());
        }
        None
    }

    /// The registered names, in their sorted order.
    pub fn names(&self) -> (r: Vec<String>)
        ensures
            r.deep_view() == keys_of(self@),
    {
        let mut r: Vec<String> = Vec::new();
        let mut i: usize = 0;
        while i < self.entries.len()
            invariant
                0 <= i <= self.entries.len(),
                r.deep_view() =~= keys_of(self@).take(i as int),
            decreases self.entries.len() - i,
        {
            let nm = self.entries[i].0.clone();
            let ghost pre = r;
            r.push(nm);
            proof {
                lemma_deep_view_push(pre, r, nm);
                assert(keys_of(self@)[i as int] == self@[i as int].0);
                assert(self.entries.deep_view()[i as int] == (nm@, self.entries@[i as int].1@));
                assert(r.deep_view() =~= keys_of(self@).take(i + 1 as int));
            }
            i = i + 1;
        }
        proof {
            assert(keys_of(self@).take(self@.len() as int) =~= keys_of(self@));
        }
        r
    }
}

/// Parses one custom-pattern definition `<pattern_name> <pattern_body>` and
/// registers it, handing the parsed pair back so the caller can also
/// register it with the pattern engine.  A definition without any
/// whitespace cannot be split in two and is rejected.
pub fn add_pattern(m: &mut PatternRegistry, p: &str) -> (r: Result<(String, String), GropError>)
    requires
        old(m).wf(),
    ensures
        final(m).wf(),
        r is Ok <==> has_space(p@),
        r matches Ok(pair) ==> split2_spec(p@) == Some((pair.0@, pair.1@)) && final(m)@
            == sorted_insert_replace(old(m)@, pair.0@, pair.1@),
        r matches Err(e) ==> final(m)@ == old(m)@ && (e matches GropError::InvalidArg(msg)
            && msg@ == "Invalid pattern (should be \"pattern_name pattern\")"@),
{
    match split2(p) {
        Some((name, body)) => {
            let rname = name.clone();
            let rbody = body.clone();
            m.insert(name, body);
            Ok((rname, rbody))
        },
        None => Err(
            GropError::InvalidArg(
                String::from_str("Invalid pattern (should be \"pattern_name pattern\")"),
            ),
        ),
    }
}

/// Lists one pattern's body, or, without a target, all pattern names in
/// sorted order joined by newlines.  An unknown target name is rejected.
pub fn list_pattern(pattern_map: &PatternRegistry, target_pattern: Option<String>) -> (r: Result<
    String,
    GropError,
>)
    ensures
        target_pattern matches Some(t) ==> match r {
            Ok(v) => spec_get(pattern_map@, t@) == Some(v@),
            Err(e) => spec_get(pattern_map@, t@) is None && (e matches GropError::InvalidArg(msg)
                && msg@ == t@),
        },
        target_pattern is None ==> (r matches Ok(v) && v@ == join_with(
            "\n"@,
            keys_of(pattern_map@),
        )),
{
    match target_pattern {
        Some(target) => match pattern_map.get(&target) {
            Some(v) => Ok(v.clone()),
            None => Err(GropError::InvalidArg(target)),
        },
        None => {
            let names = pattern_map.names();
            Ok(crate::text::join_strings(&names, "\n"))
        },
    }
}

} // verus!
