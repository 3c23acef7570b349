//! The run configuration: what to match, how to merge, filter and render,
//! and the layering of a configuration file under command-line options.

use vstd::prelude::*;

verus! {

/// `over` where it is set, else `base` — the layering rule for every
/// configuration field.
pub open spec fn opt_layered<T>(over: Option<T>, base: Option<T>) -> Option<T> {
    if over is Some {
        over
    } else {
        base
    }
}

/// The multiline-merge configuration: which fields accumulate, and the
/// expressions bounding a merge scope.  The three options must be supplied
/// together; [`crate::process::merge_plan`] checks that.
pub struct MergeConfig {
    pub merge_fields: Option<Vec<String>>,
    pub merge_exp_start: Option<String>,
    pub merge_exp_end: Option<String>,
    pub merge_scope_exclusive: bool,
}

impl MergeConfig {
    /// Layers `config` over `self`: each set option of `config` wins, and
    /// `config`'s boundary flag always wins.
    pub fn merge(self, config: MergeConfig) -> (r: MergeConfig)
        ensures
            r.merge_fields == opt_layered(config.merge_fields, self.merge_fields),
            r.merge_exp_start == opt_layered(config.merge_exp_start, self.merge_exp_start),
            r.merge_exp_end == opt_layered(config.merge_exp_end, self.merge_exp_end),
            r.merge_scope_exclusive == config.merge_scope_exclusive,
    {
        MergeConfig {
            merge_fields: match config.merge_fields {
                Some(v) => Some(v),
                None => self.merge_fields,
            },
            merge_exp_start: match config.merge_exp_start {
                Some(v) => Some(v),
                None => self.merge_exp_start,
            },
            merge_exp_end: match config.merge_exp_end {
                Some(v) => Some(v),
                None => self.merge_exp_end,
            },
            merge_scope_exclusive: config.merge_scope_exclusive,
        }
    }
}

/// The full run configuration.
pub struct Config {
    pub input: Option<String>,
    pub custom_patterns: Option<Vec<String>>,
    pub list_pattern: Option<Option<String>>,
    pub match_expression: Option<String>,
    pub filters: Option<Vec<String>>,
    pub output_format: Option<String>,
    pub merge_config: Option<MergeConfig>,
}

impl Config {
    /// Layers `config` over `self`: each set option of `config` wins.
    pub fn merge(self, config: Config) -> (r: Config)
        ensures
            r.input == opt_layered(config.input, self.input),
            r.custom_patterns == opt_layered(config.custom_patterns, self.custom_patterns),
            r.list_pattern == opt_layered(config.list_pattern, self.list_pattern),
            r.match_expression == opt_layered(config.match_expression, self.match_expression),
            r.filters == opt_layered(config.filters, self.filters),
            r.output_format == opt_layered(config.output_format, self.output_format),
            r.merge_config == opt_layered(config.merge_config, self.merge_config),
    {
        Config {
            input: match config.input {
                Some(v) => Some(v),
                None => self.input,
            },
            custom_patterns: match config.custom_patterns {
                Some(v) => Some(v),
                None => self.custom_patterns,
            },
            list_pattern: match config.list_pattern {
                Some(v) => Some(v),
                None => self.list_pattern,
            },
            match_expression: match config.match_expression {
                Some(v) => Some(v),
                None => self.match_expression,
            },
            filters: match config.filters {
                Some(v) => Some(v),
                None => self.filters,
            },
            output_format: match config.output_format {
                Some(v) => Some(v),
                None => self.output_format,
            },
            merge_config: match config.merge_config {
                Some(v) => Some(v),
                None => self.merge_config,
            },
        }
    }
}

/// The command-line surface, one field per flag; the caller fills it from
/// its argument parser and converts it into a [`Config`].
pub struct Opt {
    /// Input file; standard input where absent.
    pub input: Option<String>,
    /// Custom patterns, each of the form `<pattern_name> <regexp>`.
    pub pattern: Option<Vec<String>>,
    /// List the available patterns, or one pattern's body.
    pub list_pattern: Option<Option<String>>,
    /// The main match expression.
    pub expression: Option<String>,
    /// Fields to be merged among the lines of a merge scope.
    pub merge_field: Option<Vec<String>>,
    /// Expression marking the start of a merge scope.
    pub merge_exp_start: Option<String>,
    /// Expression marking the end of a merge scope.
    pub merge_exp_end: Option<String>,
    /// Whether the line matching the end expression stays outside the scope.
    pub merge_scope_exclusive: bool,
    /// Filter rules, `<field> <pattern>` to include, `-<field> <pattern>`
    /// to exclude.
    pub filter: Option<Vec<String>>,
    /// Comma-separated fields to render per output line.
    pub output_format: Option<String>,
    /// Silence all output.
    pub quiet: bool,
    /// Verbosity level.
    pub verbose: usize,
    /// Configuration file to layer under the other options.
    pub config_file: Option<String>,
}

/// The configuration an option set denotes: merge options are bundled when
/// any of the three is given, so that an incomplete combination is caught
/// later rather than silently dropped.
pub open spec fn config_from_opt(o: Opt) -> Config {
    Config {
        input: o.input,
        custom_patterns: o.pattern,
        list_pattern: o.list_pattern,
        match_expression: o.expression,
        merge_config: if o.merge_field is None && o.merge_exp_start is None && o.merge_exp_end
            is None {
            None
        } else {
            Some(
                MergeConfig {
                    merge_fields: o.merge_field,
                    merge_exp_start: o.merge_exp_start,
                    merge_exp_end: o.merge_exp_end,
                    merge_scope_exclusive: o.merge_scope_exclusive,
                },
            )
        },
        filters: o.filter,
        output_format: o.output_format,
    }
}

impl From<Opt> for Config {
    fn from(o: Opt) -> (r: Config) {
        let merge_config = match (&o.merge_field, &o.merge_exp_start, &o.merge_exp_end) {
            (None, None, None) => None,
            _ => Some(
                MergeConfig {
                    merge_fields: o.merge_field,
                    merge_exp_start: o.merge_exp_start,
                    merge_exp_end: o.merge_exp_end,
                    merge_scope_exclusive: o.merge_scope_exclusive,
                },
            ),
        };
        Config {
            input: o.input,
            custom_patterns: o.pattern,
            list_pattern: o.list_pattern,
            match_expression: o.expression,
            merge_config,
            filters: o.filter,
            output_format: o.output_format,
        }
    }
}

impl vstd::std_specs::convert::FromSpecImpl<Opt> for Config {
    open spec fn obeys_from_spec() -> bool {
        true
    }

    open spec fn from_spec(o: Opt) -> Config {
        config_from_opt(o)
    }
}

} // verus!
