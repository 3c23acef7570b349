//! Unit behaviour of the registry, the rule and format parsing, the
//! projection, the filter chain's fold, and the configuration layering.

use grop::{
    add_pattern, chain_verdict, format_output, list_pattern, merge_plan, parse_rule, parse_rules,
    split_commas, Config, FilterRule, GropError, MergeConfig, MergePlan, Opt, PatternRegistry,
    Record,
};

fn s(t: &str) -> String {
    String::from(t)
}

#[test]
fn test_add_valid_pattern() {
    let mut pattern_map = PatternRegistry::new();
    add_pattern(&mut pattern_map, "FOO foo").expect("failed to add pattern");
    assert_eq!(pattern_map.get(&s("FOO")).unwrap(), "foo");
}

#[test]
fn test_add_invalid_pattern() {
    let mut pattern_map = PatternRegistry::new();
    assert!(add_pattern(&mut pattern_map, "FOO,foo").is_err());
}

#[test]
fn test_list_pattern() {
    let mut pattern_map = PatternRegistry::new();
    pattern_map.insert(s("FOO"), s("foo"));
    pattern_map.insert(s("BAR"), s("bar"));
    assert_eq!(list_pattern(&pattern_map, None).unwrap(), "BAR\nFOO");
    assert_eq!(list_pattern(&pattern_map, Some(s("FOO"))).unwrap(), "foo");
}

#[test]
fn test_format_output() {
    let m = Record::from_pairs(vec![(s("foo"), s("foo")), (s("bar"), s("bar"))]);
    let rules: Vec<FilterRule> = Vec::new();
    let matched: Vec<bool> = Vec::new();
    assert_eq!(
        format_output(&m, &Some(s("bar,foo")), &rules, &matched).unwrap().unwrap(),
        "bar foo"
    );
}

#[test]
fn test_format_output_filter() {
    let m = Record::from_pairs(vec![(s("data"), s("bar"))]);
    let rules = parse_rules(&vec![s("-data ^b"), s("data bar")]).expect("failed to parse rules");
    // "^b" matches "bar" at its start; "bar" matches "bar"
    let matched = vec![true, true];
    assert_eq!(
        format_output(&m, &Some(s("data")), &rules, &matched).unwrap().unwrap(),
        "bar"
    );
}

/// The second half of the chain scenario: with `-data ^b` alone, the same
/// record is dropped — no later include rule overrides the exclusion.
#[test]
fn test_format_output_filter_drop() {
    let m = Record::from_pairs(vec![(s("data"), s("bar"))]);
    let rules = parse_rules(&vec![s("-data ^b")]).expect("failed to parse rules");
    let matched = vec![true];
    assert_eq!(format_output(&m, &Some(s("data")), &rules, &matched).unwrap(), None);
}

/// Rules that do not match are transparent: they leave the verdict of the
/// earlier rules standing rather than resetting it.
#[test]
fn test_chain_verdict_fold() {
    let rules = parse_rules(&vec![s("-f a"), s("f b")]).unwrap();
    // exclude matched, include did not: the drop survives the second rule
    assert_eq!(chain_verdict(&rules, &vec![true, false]), false);
    // exclude matched, include matched after it: kept again
    assert_eq!(chain_verdict(&rules, &vec![true, true]), true);
    // nothing matched: kept by default
    assert_eq!(chain_verdict(&rules, &vec![false, false]), true);
    // no rules at all: kept
    assert_eq!(chain_verdict(&Vec::new(), &Vec::new()), true);
}

#[test]
fn test_parse_rule_polarity() {
    let inc = parse_rule("data bar").unwrap();
    assert!(!inc.negative);
    assert_eq!(inc.field, "data");
    assert_eq!(inc.pattern, "bar");
    let exc = parse_rule("-data ^b").unwrap();
    assert!(exc.negative);
    assert_eq!(exc.field, "data");
    assert_eq!(exc.pattern, "^b");
    match parse_rule("nowhitespace") {
        Err(GropError::InvalidArg(msg)) => {
            assert_eq!(msg, "Invalid pattern (should be \"field_name pattern\")")
        },
        other => panic!("expected an invalid-argument error, got {:?}", other),
    }
}

#[test]
fn test_add_pattern_trims_body() {
    let mut pattern_map = PatternRegistry::new();
    add_pattern(&mut pattern_map, "FOO   foo  ").expect("failed to add pattern");
    assert_eq!(pattern_map.get(&s("FOO")).unwrap(), "foo");
}

#[test]
fn test_add_pattern_replaces() {
    let mut pattern_map = PatternRegistry::new();
    add_pattern(&mut pattern_map, "FOO foo").expect("failed to add pattern");
    add_pattern(&mut pattern_map, "FOO bar").expect("failed to add pattern");
    assert_eq!(pattern_map.get(&s("FOO")).unwrap(), "bar");
    assert_eq!(list_pattern(&pattern_map, None).unwrap(), "FOO");
}

#[test]
fn test_list_pattern_unknown_target() {
    let pattern_map = PatternRegistry::new();
    match list_pattern(&pattern_map, Some(s("BAZ"))) {
        Err(GropError::InvalidArg(name)) => assert_eq!(name, "BAZ"),
        other => panic!("expected an invalid-argument error, got {:?}", other),
    }
}

#[test]
fn test_split_commas_keeps_empty_parts() {
    assert_eq!(split_commas("a,b,c"), vec![s("a"), s("b"), s("c")]);
    assert_eq!(split_commas("a,,c"), vec![s("a"), s(""), s("c")]);
    assert_eq!(split_commas(""), vec![s("")]);
}

#[test]
fn test_projection_missing_field() {
    let m = Record::from_pairs(vec![(s("data"), s("bar"))]);
    let rules: Vec<FilterRule> = Vec::new();
    match format_output(&m, &Some(s("data,nope")), &rules, &Vec::new()) {
        Err(GropError::MissingField(name)) => assert_eq!(name, "nope"),
        other => panic!("expected a missing-field error, got {:?}", other),
    }
}

/// A filter rule naming a field outside the pattern's capture set is the
/// fatal missing-field error, raised when the rule's payload is fetched.
#[test]
fn test_filter_field_missing() {
    let m = Record::from_pairs(vec![(s("data"), s("bar"))]);
    let rules = parse_rules(&vec![s("-absent x")]).unwrap();
    match grop::filter_payloads(&m, &rules) {
        Err(GropError::MissingField(name)) => assert_eq!(name, "absent"),
        other => panic!("expected a missing-field error, got {:?}", other),
    }
}

/// The fallback projection (no explicit format) joins all values in the
/// record's name-sorted field order, whatever order the pairs arrived in.
#[test]
fn test_fallback_projection_order_pinned() {
    let rules: Vec<FilterRule> = Vec::new();
    let a = Record::from_pairs(vec![(s("b"), s("2")), (s("a"), s("1")), (s("c"), s("3"))]);
    let b = Record::from_pairs(vec![(s("c"), s("3")), (s("a"), s("1")), (s("b"), s("2"))]);
    assert_eq!(format_output(&a, &None, &rules, &Vec::new()).unwrap().unwrap(), "1 2 3");
    assert_eq!(format_output(&b, &None, &rules, &Vec::new()).unwrap().unwrap(), "1 2 3");
}

/// Round trip: projecting a record by its own field list, in its field
/// order, renders every captured value exactly once, space-joined — the
/// same line the fallback projection renders.
#[test]
fn test_projection_round_trip() {
    let rules: Vec<FilterRule> = Vec::new();
    let m = Record::from_pairs(vec![(s("x"), s("left")), (s("y"), s("mid")), (s("z"), s("right"))]);
    let full_format = m.names().join(",");
    let explicit = format_output(&m, &Some(full_format), &rules, &Vec::new()).unwrap().unwrap();
    let fallback = format_output(&m, &None, &rules, &Vec::new()).unwrap().unwrap();
    assert_eq!(explicit, "left mid right");
    assert_eq!(explicit, fallback);
}

/// A repeated capture name keeps its first value.
#[test]
fn test_record_first_value_wins() {
    let m = Record::from_pairs(vec![(s("k"), s("first")), (s("k"), s("second"))]);
    assert_eq!(m.get(&s("k")).unwrap(), "first");
    assert_eq!(m.len(), 1);
}

#[test]
fn test_config_merge_layering() {
    let base = Config {
        input: Some(s("base.log")),
        custom_patterns: None,
        list_pattern: None,
        match_expression: Some(s("%{GREEDYDATA:all}")),
        filters: Some(vec![s("all x")]),
        output_format: None,
        merge_config: None,
    };
    let over = Config {
        input: None,
        custom_patterns: Some(vec![s("FOO foo")]),
        list_pattern: None,
        match_expression: Some(s("%{FOO:foo}")),
        filters: None,
        output_format: None,
        merge_config: None,
    };
    let merged = base.merge(over);
    assert_eq!(merged.input, Some(s("base.log")));
    assert_eq!(merged.custom_patterns, Some(vec![s("FOO foo")]));
    assert_eq!(merged.match_expression, Some(s("%{FOO:foo}")));
    assert_eq!(merged.filters, Some(vec![s("all x")]));
}

#[test]
fn test_merge_config_merge_layering() {
    let base = MergeConfig {
        merge_fields: Some(vec![s("data")]),
        merge_exp_start: Some(s("START")),
        merge_exp_end: None,
        merge_scope_exclusive: true,
    };
    let over = MergeConfig {
        merge_fields: None,
        merge_exp_start: Some(s("BEGIN")),
        merge_exp_end: Some(s("END")),
        merge_scope_exclusive: false,
    };
    let merged = base.merge(over);
    assert_eq!(merged.merge_fields, Some(vec![s("data")]));
    assert_eq!(merged.merge_exp_start, Some(s("BEGIN")));
    assert_eq!(merged.merge_exp_end, Some(s("END")));
    assert_eq!(merged.merge_scope_exclusive, false);
}

fn empty_opt() -> Opt {
    Opt {
        input: None,
        pattern: None,
        list_pattern: None,
        expression: None,
        merge_field: None,
        merge_exp_start: None,
        merge_exp_end: None,
        merge_scope_exclusive: false,
        filter: None,
        output_format: None,
        quiet: false,
        verbose: 0,
        config_file: None,
    }
}

#[test]
fn test_opt_into_config_bundles_merge_options() {
    let mut o = empty_opt();
    o.expression = Some(s("%{FOO:foo}"));
    let c = Config::from(o);
    assert_eq!(c.match_expression, Some(s("%{FOO:foo}")));
    assert!(c.merge_config.is_none());

    let mut o2 = empty_opt();
    o2.merge_field = Some(vec![s("data")]);
    let c2 = Config::from(o2);
    let mc = c2.merge_config.expect("partial merge options are bundled, not dropped");
    assert_eq!(mc.merge_fields, Some(vec![s("data")]));
    assert!(mc.merge_exp_start.is_none());
}

#[test]
fn test_merge_plan_combinations() {
    assert!(matches!(merge_plan(None), Ok(MergePlan::NoMerge)));

    let complete = MergeConfig {
        merge_fields: Some(vec![s("data")]),
        merge_exp_start: Some(s("START")),
        merge_exp_end: Some(s("END")),
        merge_scope_exclusive: true,
    };
    match merge_plan(Some(complete)) {
        Ok(MergePlan::Merge { merge_fields, start_exp, end_exp, exclusive }) => {
            assert_eq!(merge_fields, vec![s("data")]);
            assert_eq!(start_exp, "START");
            assert_eq!(end_exp, "END");
            assert!(exclusive);
        },
        other => panic!("expected a complete merge plan, got {:?}", other),
    }

    let partial = MergeConfig {
        merge_fields: Some(vec![s("data")]),
        merge_exp_start: None,
        merge_exp_end: Some(s("END")),
        merge_scope_exclusive: false,
    };
    match merge_plan(Some(partial)) {
        Err(GropError::InvalidArg(msg)) => assert_eq!(msg, "invalid merge option combinations"),
        other => panic!("expected an invalid-argument error, got {:?}", other),
    }
}
