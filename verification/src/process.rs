//! The per-record emission step and the merge-configuration check: what
//! the stream driver runs for every record it routes, and the validation
//! of the merge option combination before a run begins.

use vstd::prelude::*;
use crate::config::MergeConfig;
use crate::errors::GropError;
use crate::filter::{chain_verdict, chain_verdict_spec, FilterRule};
use crate::project::{project, project_spec};
use crate::record::Record;

verus! {

/// The emission decision for one record: a dropped record renders to
/// nothing, a kept one to its projection; the error is the first
/// projection field the record lacks.
pub open spec fn format_output_spec(
    rec: Seq<(Seq<char>, Seq<char>)>,
    format: Option<Seq<char>>,
    rules: Seq<(bool, Seq<char>, Seq<char>)>,
    matched: Seq<bool>,
) -> Result<Option<Seq<char>>, Seq<char>> {
    if !chain_verdict_spec(rules, matched, true) {
        Ok(None)
    } else {
        match project_spec(rec, format) {
            Err(f) => Err(f),
            Ok(line) => Ok(Some(line)),
        }
    }
}

/// Renders one record, or drops it, exactly as [`format_output_spec`]
/// describes: the rule chain's verdict over the given per-rule match
/// outcomes decides keep or drop, and a kept record is projected.  The
/// caller obtains `matched` by applying each rule's sub-pattern to the
/// field value [`crate::filter::filter_payloads`] hands out for it.
pub fn format_output(
    m: &Record,
    format: &Option<String>,
    rules: &Vec<FilterRule>,
    matched: &Vec<bool>,
) -> (r: Result<Option<String>, GropError>)
    requires
        matched@.len() == rules@.len(),
    ensures
        r is Ok <==> format_output_spec(m@, format.deep_view(), rules.deep_view(), matched@)
            is Ok,
        r matches Ok(o) ==> format_output_spec(m@, format.deep_view(), rules.deep_view(), matched@)
            == Ok::<Option<Seq<char>>, Seq<char>>(o.deep_view()),
        r matches Err(e) ==> (e matches GropError::MissingField(f) && format_output_spec(
            m@,
            format.deep_view(),
            rules.deep_view(),
            matched@,
        ) == Err::<Option<Seq<char>>, Seq<char>>(f@)),
{
    let keep = chain_verdict(rules, matched);
    if !keep {
        return Ok(None);
    }
    match project(m, format) {
        Ok(line) => Ok(Some(line)),
        Err(e) => Err(e),
    }
}

/// The checked merge configuration of a run: either no merging, or the
/// complete set of merge options.
#[derive(Debug)]
pub enum MergePlan {
    NoMerge,
    Merge { merge_fields: Vec<String>, start_exp: String, end_exp: String, exclusive: bool },
}

/// Checks the merge option combination: the merge fields and both boundary
/// expressions must be supplied together or not at all; a partial
/// combination is a fatal configuration error.
pub fn merge_plan(mc: Option<MergeConfig>) -> (r: Result<MergePlan, GropError>)
    ensures
        mc is None ==> (r matches Ok(p) && p is NoMerge),
        mc is Some && mc->0.merge_fields is Some && mc->0.merge_exp_start is Some
            && mc->0.merge_exp_end is Some ==> (r matches Ok(p) && (p matches MergePlan::Merge {
            merge_fields,
            start_exp,
            end_exp,
            exclusive,
        } && merge_fields == mc->0.merge_fields->0 && start_exp == mc->0.merge_exp_start->0
            && end_exp == mc->0.merge_exp_end->0 && exclusive == mc->0.merge_scope_exclusive)),
        mc is Some && !(mc->0.merge_fields is Some && mc->0.merge_exp_start is Some
            && mc->0.merge_exp_end is Some) ==> (r matches Err(e) && (e matches
        GropError::InvalidArg(msg) && msg@ == "invalid merge option combinations"@)),
{
    match mc {
        None => Ok(MergePlan::NoMerge),
        Some(c) => {
            let exclusive = c.merge_scope_exclusive;
            match (c.merge_fields, c.merge_exp_start, c.merge_exp_end) {
                (Some(merge_fields), Some(start_exp), Some(end_exp)) => Ok(
                    MergePlan::Merge { merge_fields, start_exp, end_exp, exclusive },
                ),
                _ => Err(
                    GropError::InvalidArg(String::from_str("invalid merge option combinations")),
                ),
            }
        },
    }
}

} // verus!
