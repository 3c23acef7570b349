//! The filter chain: an ordered list of include/exclude rules evaluated
//! against a record's field values.
//!
//! Parsing a rule string and folding the per-rule match outcomes into one
//! keep/drop verdict are verified here; applying a rule's sub-pattern to a
//! field value is the pattern engine's work, so the fold takes the match
//! outcomes as plain booleans.

use vstd::prelude::*;
use crate::errors::GropError;
use crate::record::{spec_get, lookup_all, lemma_lookup_all_first_missing, lemma_lookup_all_some,
    lemma_deep_view_push, Record};
use crate::text::{split2, split2_spec};

verus! {

/// One filter rule: a field name, a sub-pattern for its value, and the
/// rule's polarity (`negative` excludes on a match, otherwise a match
/// includes).
#[derive(Debug)]
pub struct FilterRule {
    pub negative: bool,
    pub field: String,
    pub pattern: String,
}

impl View for FilterRule {
    type V = (bool, Seq<char>, Seq<char>);

    open spec fn view(&self) -> (bool, Seq<char>, Seq<char>) {
        (self.negative, self.field@, self.pattern@)
    }
}

impl DeepView for FilterRule {
    type V = (bool, Seq<char>, Seq<char>);

    open spec fn deep_view(&self) -> (bool, Seq<char>, Seq<char>) {
        self.view()
    }
}

/// The field names of a rule list, in order.
pub open spec fn fields_of(rules: Seq<(bool, Seq<char>, Seq<char>)>) -> Seq<Seq<char>> {
    rules.map_values(|r: (bool, Seq<char>, Seq<char>)| r.1)
}

/// Parsing one rule string: a leading `-` selects exclude polarity, and
/// the rest splits at its first whitespace run into field name and
/// sub-pattern.
pub open spec fn parse_rule_spec(s: Seq<char>) -> Option<(bool, Seq<char>, Seq<char>)> {
    if s.len() > 0 && s[0] == '-' {
        match split2_spec(s.drop_first()) {
            Some(p) => Some((true, p.0, p.1)),
            None => None,
        }
    } else {
        match split2_spec(s) {
            Some(p) => Some((false, p.0, p.1)),
            None => None,
        }
    }
}

/// Parses one rule string exactly as [`parse_rule_spec`] describes; a
/// string without whitespace cannot name both a field and a sub-pattern
/// and is rejected.
pub fn parse_rule(s: &str) -> (r: Result<FilterRule, GropError>)
    ensures
        r is Ok <==> parse_rule_spec(s@) is Some,
        r matches Ok(rule) ==> parse_rule_spec(s@) == Some(rule@),
        r matches Err(e) ==> (e matches GropError::InvalidArg(msg) && msg@
            == "Invalid pattern (should be \"field_name pattern\")"@),
{
    let n = s.unicode_len();
    let (negative, rest): (bool, String) = if n > 0 && s.get_char(0) == '-' {
        (true, String::from_str(s.substring_char(1, n)))
    } else {
        (false, String::from_str(s.substring_char(0, n)))
    };
    proof {
        if n > 0 && s@[0] == '-' {
            assert(rest@ =~= s@.drop_first());
        } else {
            assert(rest@ =~= s@);
        }
    }
    match split2(rest.as_str()) {
        Some((field, pattern)) => Ok(FilterRule { negative, field, pattern }),
        None => Err(
            GropError::InvalidArg(
                String::from_str("Invalid pattern (should be \"field_name pattern\")"),
            ),
        ),
    }
}

/// Parsing a whole rule list: every string must parse, in order.
pub open spec fn parse_rules_spec(fs: Seq<Seq<char>>) -> Option<Seq<(bool, Seq<char>, Seq<char>)>>
    decreases fs.len(),
{
    if fs.len() == 0 {
        Some(Seq::empty())
    } else {
        match parse_rules_spec(fs.drop_last()) {
            None => None,
            Some(rest) => match parse_rule_spec(fs.last()) {
                None => None,
                Some(r) => Some(rest.push(r)),
            },
        }
    }
}

proof fn lemma_parse_rules_none(fs: Seq<Seq<char>>, i: int)
    requires
        0 <= i < fs.len(),
        parse_rule_spec(fs[i]) is None,
    ensures
        parse_rules_spec(fs) is None,
    decreases fs.len(),
{
    if fs.len() > 0 {
        if i == fs.len() - 1 {
        } else {
            lemma_parse_rules_none(fs.drop_last(), i);
        }
    }
}

/// Parses the configured rule strings in order, exactly as
/// [`parse_rules_spec`] describes.
pub fn parse_rules(filters: &Vec<String>) -> (r: Result<Vec<FilterRule>, GropError>)
    ensures
        r is Ok <==> parse_rules_spec(filters.deep_view()) is Some,
        r matches Ok(rules) ==> parse_rules_spec(filters.deep_view()) == Some(rules.deep_view()),
        r matches Err(e) ==> (e matches GropError::InvalidArg(msg) && msg@
            == "Invalid pattern (should be \"field_name pattern\")"@),
{
    let ghost dv = filters.deep_view();
    let mut rules: Vec<FilterRule> = Vec::new();
    let mut i: usize = 0;
    while i < filters.len()
        invariant
            0 <= i <= filters.len(),
            dv == filters.deep_view(),
            dv.len() == filters.len(),
            parse_rules_spec(dv.take(i as int)) == Some(rules.deep_view()),
        decreases filters.len() - i,
    {
        match parse_rule(filters[i].as_str()) {
            Ok(rule) => {
                let ghost pre = rules;
                rules.push(rule);
                proof {
                    lemma_deep_view_push(pre, rules, rule);
                    assert(dv[i as int] == filters[i as int]@);
                    assert(dv.take(i + 1 as int).drop_last() =~= dv.take(i as int));
                    assert(dv.take(i + 1 as int).last() == dv[i as int]);
                }
            },
            Err(e) => {
                proof {
                    assert(dv[i as int] == filters[i as int]@);
                    lemma_parse_rules_none(dv, i as int);
                }
                return Err(e);
            },
        }
        i = i + 1;
    }
    proof {
        assert(dv.take(dv.len() as int) =~= dv);
    }
    Ok(rules)
}

/// The fold of the chain: starting from `keep`, a matching rule sets the
/// verdict to its polarity (include sets keep, exclude sets drop), and a
/// rule that does not match leaves the verdict as it stands.
pub open spec fn chain_verdict_spec(
    rules: Seq<(bool, Seq<char>, Seq<char>)>,
    matched: Seq<bool>,
    keep: bool,
) -> bool
    decreases rules.len(),
{
    if rules.len() == 0 {
        keep
    } else {
        let k = if matched[0] {
            !rules[0].0
        } else {
            keep
        };
        chain_verdict_spec(rules.drop_first(), matched.drop_first(), k)
    }
}

/// Folds the per-rule match outcomes into the chain's verdict, starting
/// from keep.  No rules means every record is kept.
pub fn chain_verdict(rules: &Vec<FilterRule>, matched: &Vec<bool>) -> (keep: bool)
    requires
        matched@.len() == rules@.len(),
    ensures
        keep == chain_verdict_spec(rules.deep_view(), matched@, true),
{
    let ghost dv = rules.deep_view();
    let mut keep = true;
    let mut i: usize = 0;
    proof {
        assert(dv.skip(0) =~= dv);
        assert(matched@.skip(0) =~= matched@);
    }
    while i < rules.len()
        invariant
            0 <= i <= rules.len(),
            dv == rules.deep_view(),
            dv.len() == rules@.len(),
            matched@.len() == rules@.len(),
            chain_verdict_spec(dv.skip(i as int), matched@.skip(i as int), keep)
                == chain_verdict_spec(dv, matched@, true),
        decreases rules.len() - i,
    {
        if matched[i] {
            keep = !rules[i].negative;
        }
        proof {
            assert(dv.skip(i as int)[0] == dv[i as int]);
            assert(dv[i as int] == rules[i as int]@);
            assert(matched@.skip(i as int)[0] == matched@[i as int]);
            assert(dv.skip(i as int).drop_first() =~= dv.skip(i + 1));
            assert(matched@.skip(i as int).drop_first() =~= matched@.skip(i + 1));
        }
        i = i + 1;
    }
    proof {
        assert(dv.skip(dv.len() as int) =~= Seq::<(bool, Seq<char>, Seq<char>)>::empty());
        assert(matched@.skip(matched@.len() as int) =~= Seq::<bool>::empty());
    }
    keep
}

/// Hands out the field value each rule's sub-pattern is to be applied to,
/// in rule order; a rule naming a field the record does not hold is the
/// fatal [`GropError::MissingField`].
pub fn filter_payloads(rec: &Record, rules: &Vec<FilterRule>) -> (r: Result<Vec<String>, GropError>)
    ensures
        r is Ok <==> lookup_all(rec@, fields_of(rules.deep_view())) is Ok,
        r matches Ok(ps) ==> lookup_all(rec@, fields_of(rules.deep_view())) == Ok::<
            Seq<Seq<char>>,
            Seq<char>,
        >(ps.deep_view()),
        r matches Err(e) ==> (e matches GropError::MissingField(f) && lookup_all(
            rec@,
            fields_of(rules.deep_view()),
        ) == Err::<Seq<Seq<char>>, Seq<char>>(f@)),
{
    let ghost names = fields_of(rules.deep_view());
    let mut ps: Vec<String> = Vec::new();
    let mut i: usize = 0;
    while i < rules.len()
        invariant
            0 <= i <= rules.len(),
            names == fields_of(rules.deep_view()),
            names.len() == rules@.len(),
            ps@.len() == i,
            forall|j: int| 0 <= j < i ==> #[trigger] names[j] == rules@[j].field@,
            forall|j: int|
                0 <= j < i ==> spec_get(rec@, #[trigger] names[j]) == Some(ps.deep_view()[j]),
        decreases rules.len() - i,
    {
        proof {
            assert(names[i as int] == rules.deep_view()[i as int].1);
            assert(rules.deep_view()[i as int] == rules@[i as int]@);
        }
        match rec.get(&rules[i].field) {
            Some(v) => {
                let vl = v.clone();
                let ghost pre = ps;
                ps.push(vl);
                proof {
                    lemma_deep_view_push(pre, ps, vl);
                }
            },
            None => {
                let f = rules[i].field.clone();
                proof {
                    lemma_lookup_all_first_missing(rec@, names, i as int);
                }
                return Err(GropError::MissingField(f));
            },
        }
        i = i + 1;
    }
    proof {
        lemma_lookup_all_some(rec@, names, ps.deep_view());
    }
    Ok(ps)
}

} // verus!
