//! Stream-level behaviour: lines are matched, routed through the merge
//! engine, filtered and rendered.  The pattern engine is simulated here
//! with plain string operations that reproduce what the configured grok
//! expressions match on these inputs.

use grop::{
    filter_payloads, format_output, parse_rules, FilterRule, GropError, MergeEngine, Record,
};

/// What `%{PREFIX:prefix} %{GREEDYDATA:greedydata}` (with `PREFIX =`)
/// captures on a line: the text after the first `"= "` occurrence.
fn prefix_greedy(line: &str) -> Option<Vec<(String, String)>> {
    line.find("= ").map(|i| {
        vec![
            ("prefix".to_string(), "=".to_string()),
            ("greedydata".to_string(), line[i + 2..].to_string()),
        ]
    })
}

/// What `%{GREEDYDATA:greedydata}` captures: every line, whole.
fn greedy_only(line: &str) -> Option<Vec<(String, String)>> {
    Some(vec![("greedydata".to_string(), line.to_string())])
}

/// How the filter sub-patterns used in these tests match a field value:
/// `^p` anchors at the start, any other pattern matches anywhere.
fn rule_matches(pattern: &str, payload: &str) -> bool {
    if let Some(rest) = pattern.strip_prefix('^') {
        payload.starts_with(rest)
    } else {
        payload.contains(pattern)
    }
}

fn render(
    rec: &Record,
    format: &Option<String>,
    rules: &Vec<FilterRule>,
) -> Result<Option<String>, GropError> {
    let payloads = filter_payloads(rec, rules)?;
    let matched: Vec<bool> = rules
        .iter()
        .zip(payloads.iter())
        .map(|(r, p)| rule_matches(&r.pattern, p))
        .collect();
    format_output(rec, format, rules, &matched)
}

fn run_plain(
    input: &str,
    matcher: impl Fn(&str) -> Option<Vec<(String, String)>>,
    format: Option<String>,
    filters: Option<Vec<String>>,
) -> Result<String, GropError> {
    let rules = match &filters {
        Some(fs) => parse_rules(fs)?,
        None => Vec::new(),
    };
    let mut out = String::new();
    for line in input.lines() {
        if let Some(pairs) = matcher(line) {
            let rec = Record::from_pairs(pairs);
            if let Some(rendered) = render(&rec, &format, &rules)? {
                out.push_str(&format!("{}\n", rendered));
            }
        }
    }
    Ok(out)
}

fn run_merge(
    input: &str,
    matcher: impl Fn(&str) -> Option<Vec<(String, String)>>,
    is_start: impl Fn(&str) -> bool,
    is_end: impl Fn(&str) -> bool,
    merge_fields: Vec<String>,
    exclusive: bool,
    format: Option<String>,
    filters: Option<Vec<String>>,
) -> Result<String, GropError> {
    let rules = match &filters {
        Some(fs) => parse_rules(fs)?,
        None => Vec::new(),
    };
    let mut engine = MergeEngine::new(merge_fields, exclusive);
    let mut out = String::new();
    for line in input.lines() {
        let m = matcher(line).map(Record::from_pairs);
        let (st, en) = if m.is_some() {
            (is_start(line), is_end(line))
        } else {
            (false, false)
        };
        for rec in engine.feed_line(m, st, en)? {
            if let Some(rendered) = render(&rec, &format, &rules)? {
                out.push_str(&format!("{}\n", rendered));
            }
        }
    }
    Ok(out)
}

#[test]
fn test_process() {
    let input = "\nfoo bar\nfoo\nbar\n            ";
    let matcher = |line: &str| {
        if line.contains("foo bar") {
            Some(vec![
                ("foo".to_string(), "foo".to_string()),
                ("bar".to_string(), "bar".to_string()),
            ])
        } else {
            None
        }
    };
    let out = run_plain(input, matcher, Some(String::from("foo,bar")), None)
        .expect("failed to process");
    assert_eq!(out, "foo bar\n");
}

#[test]
fn test_process_merge_inclusive() {
    let input = "\n= 1\n= START 2\n= 3\n= END 4\n= 5\n            ";
    let out = run_merge(
        input,
        prefix_greedy,
        |l| l.contains("= START"),
        |l| l.contains("= END"),
        vec![String::from("greedydata")],
        false,
        Some(String::from("prefix,greedydata")),
        None,
    )
    .expect("failed to process");
    assert_eq!(out, "= 1\n= START 2\n3\nEND 4\n= 5\n");
}

#[test]
fn test_process_merge_exclusive() {
    let input = "\n= 1\n= REQUEST\n= 2\n= RESPONSE\n= 3\n            ";
    let out = run_merge(
        input,
        prefix_greedy,
        |l| l.contains("= REQUEST"),
        |l| l.contains("= RESPONSE"),
        vec![String::from("greedydata")],
        true,
        Some(String::from("prefix,greedydata")),
        None,
    )
    .expect("failed to process");
    assert_eq!(out, "= 1\n= REQUEST\n2\n= RESPONSE\n= 3\n");
}

#[test]
fn test_process_merge_exclusive_mono_pattern() {
    let input = "\n= REQUEST\n1\n= RESPONSE\n2\n= REQUEST\n3\n= RESPONSE\n4\n= Other Log\n";
    let out = run_merge(
        input,
        greedy_only,
        |l| l.contains("= REQUEST") || l.contains("RESPONSE"),
        |l| l.contains("= "),
        vec![String::from("greedydata")],
        true,
        Some(String::from("greedydata")),
        Some(vec![String::from("-greedydata REQUEST")]),
    )
    .expect("failed to process");
    assert_eq!(out, "\n= RESPONSE\n2\n= RESPONSE\n4\n= Other Log\n");
}

#[test]
fn test_process_merge_exclusive_continue() {
    let input = "\n= DEBUG 1\n= DEBUG REQUEST\n= 2\n= DEBUG RESPONSE\n= 3\n= DEBUG 4\n            ";
    let out = run_merge(
        input,
        prefix_greedy,
        |l| l.contains("= DEBUG REQUEST") || l.contains("RESPONSE"),
        |l| l.contains("= DEBUG"),
        vec![String::from("greedydata")],
        true,
        Some(String::from("prefix,greedydata")),
        None,
    )
    .expect("failed to process");
    assert_eq!(out, "= DEBUG 1\n= DEBUG REQUEST\n2\n= DEBUG RESPONSE\n3\n= DEBUG 4\n");
}

#[test]
fn test_process_merge_exclusive_continue_filter() {
    let input =
        "\n= DEBUG 1\n= DEBUG REQUEST\n= 2\n= n\n= y\n= DEBUG RESPONSE\n= 3\n= n\n= 4\n= DEBUG 5\n            ";
    let out = run_merge(
        input,
        prefix_greedy,
        |l| l.contains("= DEBUG REQUEST") || l.contains("RESPONSE"),
        |l| l.contains("= DEBUG"),
        vec![String::from("greedydata")],
        true,
        Some(String::from("prefix,greedydata")),
        Some(vec![String::from("-greedydata n"), String::from("greedydata y")]),
    )
    .expect("failed to process");
    assert_eq!(out, "= DEBUG 1\n= DEBUG REQUEST\n2\nn\ny\n= DEBUG 5\n");
}

/// Running the same input under the same configuration twice produces
/// byte-identical output: nothing in the pipeline depends on hidden state.
#[test]
fn test_process_twice_identical() {
    let input = "\n= 1\n= START 2\n= 3\n= END 4\n= 5\n            ";
    let once = run_merge(
        input,
        prefix_greedy,
        |l| l.contains("= START"),
        |l| l.contains("= END"),
        vec![String::from("greedydata")],
        false,
        None,
        None,
    )
    .expect("failed to process");
    let twice = run_merge(
        input,
        prefix_greedy,
        |l| l.contains("= START"),
        |l| l.contains("= END"),
        vec![String::from("greedydata")],
        false,
        None,
        None,
    )
    .expect("failed to process");
    assert_eq!(once, twice);
}

/// Lines that the main pattern does not match produce no output and no
/// error, in the merge path as in the plain one.
#[test]
fn test_unmatched_lines_are_dropped() {
    let input = "nothing here\n= 1\nstill nothing";
    let out = run_merge(
        input,
        prefix_greedy,
        |l| l.contains("START"),
        |l| l.contains("END"),
        vec![String::from("greedydata")],
        false,
        Some(String::from("greedydata")),
        None,
    )
    .expect("failed to process");
    assert_eq!(out, "1\n");
}

/// A merge scope still open at end of input is discarded: its buffered
/// content produces no output line.
#[test]
fn test_open_scope_discarded_at_eof() {
    let input = "= 1\n= START 2\n= 3";
    let out = run_merge(
        input,
        prefix_greedy,
        |l| l.contains("= START"),
        |l| l.contains("= END"),
        vec![String::from("greedydata")],
        false,
        Some(String::from("prefix,greedydata")),
        None,
    )
    .expect("failed to process");
    assert_eq!(out, "= 1\n");
}

/// A merge field that the main pattern's captures do not hold is the fatal
/// missing-field error, raised on the first absorbed line.
#[test]
fn test_merge_field_missing_is_fatal() {
    let input = "= START 1\n= 2";
    let r = run_merge(
        input,
        prefix_greedy,
        |l| l.contains("= START"),
        |l| l.contains("= END"),
        vec![String::from("payload")],
        false,
        None,
        None,
    );
    match r {
        Err(GropError::MissingField(name)) => assert_eq!(name, "payload"),
        other => panic!("expected a missing-field error, got {:?}", other),
    }
}
