//! Linter configuration and its checks: the list of linters to run, given
//! the linters defined and the codes a person asked to take or skip.
use vstd::prelude::*;
use crate::glob_pattern::{glob_valid, pattern_error};
use crate::linter::{dryrun_token, Linter};
use crate::path::AbsPath;
use crate::text::{contains_text, lemma_strings_view_push, strings_view, text_equals};

verus! {

/// A linter as the configuration file defines it.
pub struct LintConfig {
    /// The linter's code, e.g. `FLAKE8`.
    pub code: String,
    /// Globs, relative to the config file's directory, of the files to lint.
    pub include_patterns: Vec<String>,
    /// Globs of the files never to lint.
    pub exclude_patterns: Option<Vec<String>>,
    /// The program and its arguments; `{{PATHSFILE}}` stands for the file
    /// that lists the paths to lint.
    pub command: Vec<String>,
    /// The program and arguments that set the linter up; `{{DRYRUN}}` must
    /// appear in them.
    pub init_command: Option<Vec<String>>,
    /// The linter only formats: its fixes are safe to apply blindly.
    pub is_formatter: bool,
}

/// The content of a configuration file.
pub struct LintRunnerConfig {
    pub linters: Vec<LintConfig>,
    /// The revision whose merge base with the working tree is linted by default.
    pub merge_base_with: Option<String>,
}

/// A configuration that cannot be run.
pub enum ConfigError {
    /// Two linters share the code.
    DuplicateCode(String),
    /// A linter's glob pattern is malformed.
    InvalidPattern { code: String, pattern: String, message: String },
    /// A linter's command is empty.
    EmptyCommand(String),
    /// A code asked for with take names no linter.
    UnknownTaken(String),
    /// A code asked for with skip names no linter.
    UnknownSkipped(String),
    /// A linter's init command has no dry-run token.
    MissingDryRun(String),
}

impl ConfigError {
    /// A description of the error.
    pub fn message(&self) -> (r: String)
        ensures
            r@.len() > 0,
    {
        let (lead, name, tail) = match self {
            ConfigError::DuplicateCode(c) => (
                "Invalid linter configuration: linter '",
                c.as_str(),
                "' is defined multiple times.",
            ),
            ConfigError::InvalidPattern { pattern, .. } => (
                "Could not parse pattern from linter configuration: '",
                pattern.as_str(),
                "'.",
            ),
            ConfigError::EmptyCommand(c) => (
                "Invalid linter configuration: '",
                c.as_str(),
                "' has an empty command list.",
            ),
            ConfigError::UnknownTaken(c) => ("Unknown linter specified in --take: ", c.as_str(), ""),
            ConfigError::UnknownSkipped(c) => (
                "Unknown linter specified in --skip: ",
                c.as_str(),
                "",
            ),
            ConfigError::MissingDryRun(c) => (
                "Config for linter ",
                c.as_str(),
                " defines init args but does not take a {{DRYRUN}} argument.",
            ),
        };
        let mut s = String::from_str(lead);
        proof {
            reveal_strlit("Invalid linter configuration: linter '");
            reveal_strlit("Could not parse pattern from linter configuration: '");
            reveal_strlit("Invalid linter configuration: '");
            reveal_strlit("Unknown linter specified in --take: ");
            reveal_strlit("Unknown linter specified in --skip: ");
            reveal_strlit("Config for linter ");
        }
        s.append(name);
        s.append(tail);
        s
    }
}

/// Whether a flag is false.
pub fn is_false(b: &bool) -> (r: bool)
    ensures
        r == !*b,
{
    !*b
}

/// The views of an optional list of strings.
pub open spec fn opt_strings(v: Option<Vec<String>>) -> Option<Seq<Seq<char>>> {
    match v {
        Some(l) => Some(strings_view(l@)),
        None => None,
    }
}

/// A copy of a list of strings.
pub fn copy_strings(v: &Vec<String>) -> (r: Vec<String>)
    ensures
        strings_view(r@) == strings_view(v@),
{
    let mut out: Vec<String> = Vec::new();
    let mut i: usize = 0;
    while i < v.len()
        invariant
            i <= v.len(),
            strings_view(out@) == strings_view(v@.take(i as int)),
        decreases v.len() - i,
    {
        let s = v[i].clone();
        proof {
            lemma_strings_view_push(out@, s);
            assert(v@.take(i + 1) =~= v@.take(i as int).push(v@[i as int]));
            assert(strings_view(v@.take(i + 1)) =~= strings_view(v@.take(i as int)).push(s@));
        }
        out.push(s);
        i = i + 1;
    }
    proof {
        assert(v@.take(v.len() as int) =~= v@);
    }
    out
}

/// Whether `s` is one of the strings of `list`.
pub fn contains_str(list: &Vec<String>, s: &str) -> (r: bool)
    ensures
        r == strings_view(list@).contains(s@),
{
    let mut i: usize = 0;
    while i < list.len()
        invariant
            i <= list.len(),
            forall|j: int| 0 <= j < i ==> list@[j]@ != s@,
        decreases list.len() - i,
    {
        if text_equals(list[i].as_str(), s) {
            assert(strings_view(list@)[i as int] == s@);
            return true;
        }
        i = i + 1;
    }
    proof {
        if strings_view(list@).contains(s@) {
            let j = choose|j: int| 0 <= j < list@.len() && strings_view(list@)[j] == s@;
        }
    }
    false
}

/// The codes of the configured linters.
pub open spec fn codes(configs: Seq<LintConfig>) -> Seq<Seq<char>> {
    configs.map_values(|c: LintConfig| c.code@)
}

/// Every pattern of the list is a valid glob.
pub open spec fn all_valid(patterns: Seq<Seq<char>>) -> bool {
    forall|i: int| 0 <= i < patterns.len() ==> glob_valid(#[trigger] patterns[i])
}

/// The `i`-th linter is sound: its code is new, its patterns valid and its
/// command not empty.
pub open spec fn config_sound(configs: Seq<LintConfig>, i: int) -> bool {
    &&& !codes(configs).take(i).contains(configs[i].code@)
    &&& all_valid(strings_view(configs[i].include_patterns@))
    &&& match configs[i].exclude_patterns {
        Some(v) => all_valid(strings_view(v@)),
        None => true,
    }
    &&& configs[i].command@.len() > 0
}

/// Every code of the optional list names a configured linter.
pub open spec fn all_known(configs: Seq<LintConfig>, asked: Option<Seq<Seq<char>>>) -> bool {
    forall|i: int|
        asked is Some && 0 <= i < asked.unwrap().len() ==> codes(configs).contains(
            #[trigger] asked.unwrap()[i],
        )
}

/// The linter is run: it is taken, where codes are taken, and not skipped.
pub open spec fn is_kept(
    code: Seq<char>,
    skipped: Option<Seq<Seq<char>>>,
    taken: Option<Seq<Seq<char>>>,
) -> bool {
    &&& match taken {
        Some(t) => t.contains(code),
        None => true,
    }
    &&& match skipped {
        Some(s) => !s.contains(code),
        None => true,
    }
}

/// The configured linters that are run, in order.
pub open spec fn kept_configs(
    configs: Seq<LintConfig>,
    skipped: Option<Seq<Seq<char>>>,
    taken: Option<Seq<Seq<char>>>,
) -> Seq<LintConfig>
    decreases configs.len(),
{
    if configs.len() == 0 {
        configs
    } else if is_kept(configs.last().code@, skipped, taken) {
        kept_configs(configs.drop_last(), skipped, taken).push(configs.last())
    } else {
        kept_configs(configs.drop_last(), skipped, taken)
    }
}

/// The linter is the one the configuration defines, under the config file.
pub open spec fn built_from(l: Linter, c: LintConfig, config_path: Seq<char>) -> bool {
    &&& l.code@ == c.code@
    &&& strings_view(l.include_patterns@) == strings_view(c.include_patterns@)
    &&& strings_view(l.exclude_patterns@) == match c.exclude_patterns {
        Some(v) => strings_view(v@),
        None => Seq::<Seq<char>>::empty(),
    }
    &&& strings_view(l.commands@) == strings_view(c.command@)
    &&& opt_strings(l.init_commands) == opt_strings(c.init_command)
    &&& l.config_path@ == config_path
}

/// The error names a genuine problem of the configuration.
pub open spec fn error_holds(
    configs: Seq<LintConfig>,
    skipped: Option<Seq<Seq<char>>>,
    taken: Option<Seq<Seq<char>>>,
    e: ConfigError,
) -> bool {
    match e {
        ConfigError::DuplicateCode(c) => exists|i: int, j: int|
            0 <= i < j < configs.len() && #[trigger] configs[i].code@ == c@ && #[trigger]
                configs[j].code@ == c@,
        ConfigError::InvalidPattern { code, pattern, .. } => !glob_valid(pattern@)
            && exists|i: int|
            0 <= i < configs.len() && #[trigger] configs[i].code@ == code@ && (strings_view(
                configs[i].include_patterns@,
            ).contains(pattern@) || match configs[i].exclude_patterns {
                Some(v) => strings_view(v@).contains(pattern@),
                None => false,
            }),
        ConfigError::EmptyCommand(c) => exists|i: int|
            0 <= i < configs.len() && #[trigger] configs[i].code@ == c@ && configs[i].command@.len()
                == 0,
        ConfigError::UnknownTaken(c) => taken matches Some(t) && t.contains(c@) && !codes(
            configs,
        ).contains(c@),
        ConfigError::UnknownSkipped(c) => skipped matches Some(s) && s.contains(c@) && !codes(
            configs,
        ).contains(c@),
        ConfigError::MissingDryRun(_) => false,
    }
}

/// Checks that every pattern is a valid glob; names the first that is not.
fn check_patterns(code: &String, patterns: &Vec<String>) -> (r: Result<(), ConfigError>)
    ensures
        r is Ok <==> all_valid(strings_view(patterns@)),
        r matches Err(e) ==> e matches ConfigError::InvalidPattern { code: c, pattern, message }
            && c@ == code@ && strings_view(patterns@).contains(pattern@) && !glob_valid(
            pattern@,
        ),
{
    let mut i: usize = 0;
    while i < patterns.len()
        invariant
            i <= patterns.len(),
            forall|j: int| 0 <= j < i ==> glob_valid(#[trigger] strings_view(patterns@)[j]),
        decreases patterns.len() - i,
    {
        match pattern_error(patterns[i].as_str()) {
            Some(message) => {
                assert(strings_view(patterns@)[i as int] == patterns@[i as int]@);
                return Err(
                    ConfigError::InvalidPattern {
                        code: code.clone(),
                        pattern: patterns[i].clone(),
                        message,
                    },
                );
            },
            None => {},
        }
        i = i + 1;
    }
    Ok(())
}

/// Checks that every asked-for code names a configured linter.
fn check_known(configs: &Vec<LintConfig>, asked: &Vec<String>, taking: bool) -> (r: Result<
    (),
    ConfigError,
>)
    ensures
        r is Ok <==> all_known(configs@, Some(strings_view(asked@))),
        r matches Err(e) ==> match e {
            ConfigError::UnknownTaken(c) => taking && strings_view(asked@).contains(c@) && !codes(
                configs@,
            ).contains(c@),
            ConfigError::UnknownSkipped(c) => !taking && strings_view(asked@).contains(c@)
                && !codes(configs@).contains(c@),
            _ => false,
        },
{
    let mut i: usize = 0;
    while i < asked.len()
        invariant
            i <= asked.len(),
            forall|j: int|
                0 <= j < i ==> codes(configs@).contains(#[trigger] strings_view(asked@)[j]),
        decreases asked.len() - i,
    {
        let mut k: usize = 0;
        let mut found = false;
        while k < configs.len() && !found
            invariant
                k <= configs.len(),
                i < asked.len(),
                found ==> codes(configs@).contains(asked@[i as int]@),
                !found ==> forall|j: int| 0 <= j < k ==> configs@[j].code@ != asked@[i as int]@,
            decreases configs.len() - k,
        {
            if text_equals(configs[k].code.as_str(), asked[i].as_str()) {
                found = true;
                assert(codes(configs@)[k as int] == asked@[i as int]@);
            }
            k = k + 1;
        }
        assert(strings_view(asked@)[i as int] == asked@[i as int]@);
        if !found {
            assert(!codes(configs@).contains(strings_view(asked@)[i as int]));
            proof {
                let l = strings_view(asked@);
                if all_known(configs@, Some(l)) {
                    assert(codes(configs@).contains(Some(l).unwrap()[i as int]));
                }
            }
            proof {
                if codes(configs@).contains(asked@[i as int]@) {
                    let j = choose|j: int|
                        0 <= j < configs@.len() && codes(configs@)[j] == asked@[i as int]@;
                    assert(configs@[j].code@ == asked@[i as int]@);
                }
            }
            let c = asked[i].clone();
            if taking {
                return Err(ConfigError::UnknownTaken(c));
            } else {
                return Err(ConfigError::UnknownSkipped(c));
            }
        }
        i = i + 1;
    }
    proof {
        let l = strings_view(asked@);
        assert forall|j: int|
            Some(l) is Some && 0 <= j < Some(l).unwrap().len() implies codes(configs@).contains(
            #[trigger] Some(l).unwrap()[j],
        ) by {
            assert(codes(configs@).contains(l[j]));
        }
    }
    Ok(())
}

/// Checks the `i`-th linter definition against those before it.
fn check_config(configs: &Vec<LintConfig>, i: usize) -> (r: Result<(), ConfigError>)
    requires
        i < configs@.len(),
    ensures
        r is Ok <==> config_sound(configs@, i as int),
        r matches Err(e) ==> error_holds(configs@, None, None, e),
{
    let c = &configs[i];
    let mut j: usize = 0;
    while j < i
        invariant
            i < configs@.len(),
            c.code@ == configs@[i as int].code@,
            j <= i,
            forall|a: int| 0 <= a < j ==> configs@[a].code@ != configs@[i as int].code@,
        decreases i - j,
    {
        if text_equals(configs[j].code.as_str(), c.code.as_str()) {
            assert(codes(configs@).take(i as int)[j as int] == configs@[i as int].code@);
            return Err(ConfigError::DuplicateCode(c.code.clone()));
        }
        j = j + 1;
    }
    proof {
        if codes(configs@).take(i as int).contains(configs@[i as int].code@) {
            let a = choose|a: int|
                0 <= a < i && codes(configs@).take(i as int)[a] == configs@[i as int].code@;
            assert(configs@[a].code@ == configs@[i as int].code@);
        }
    }
    match check_patterns(&c.code, &c.include_patterns) {
        Err(e) => {
            return Err(e);
        },
        Ok(()) => {},
    }
    match &c.exclude_patterns {
        Some(v) => match check_patterns(&c.code, v) {
            Err(e) => {
                return Err(e);
            },
            Ok(()) => {},
        },
        None => {},
    }
    if c.command.len() == 0 {
        return Err(ConfigError::EmptyCommand(c.code.clone()));
    }
    Ok(())
}

/// The linters to run: every definition must be sound, and every code asked
/// for with take or skip must name a linter; of the linters, those taken
/// (where codes are taken) and not skipped are run, in order.
pub fn get_linters_from_config(
    linter_configs: &Vec<LintConfig>,
    skipped_linters: Option<Vec<String>>,
    taken_linters: Option<Vec<String>>,
    config_path: &AbsPath,
) -> (r: Result<Vec<Linter>, ConfigError>)
    ensures
        r is Ok <==> (forall|i: int|
            0 <= i < linter_configs@.len() ==> #[trigger] config_sound(linter_configs@, i))
            && all_known(linter_configs@, opt_strings(taken_linters)) && all_known(
            linter_configs@,
            opt_strings(skipped_linters),
        ),
        r matches Ok(ls) ==> {
            let kept = kept_configs(
                linter_configs@,
                opt_strings(skipped_linters),
                opt_strings(taken_linters),
            );
            &&& ls@.len() == kept.len()
            &&& forall|j: int|
                0 <= j < ls@.len() ==> #[trigger] built_from(ls@[j], kept[j], config_path@)
        },
        r matches Err(e) ==> error_holds(
            linter_configs@,
            opt_strings(skipped_linters),
            opt_strings(taken_linters),
            e,
        ),
{
    let ghost configs = linter_configs@;
    let ghost skipped = opt_strings(skipped_linters);
    let ghost taken = opt_strings(taken_linters);
    let mut i: usize = 0;
    while i < linter_configs.len()
        invariant
            configs == linter_configs@,
            i <= linter_configs.len(),
            forall|a: int| 0 <= a < i ==> #[trigger] config_sound(configs, a),
        decreases linter_configs.len() - i,
    {
        match check_config(linter_configs, i) {
            Err(e) => {
                return Err(e);
            },
            Ok(()) => {},
        }
        i = i + 1;
    }
    match &taken_linters {
        Some(t) => match check_known(linter_configs, t, true) {
            Err(e) => {
                return Err(e);
            },
            Ok(()) => {},
        },
        None => {},
    }
    match &skipped_linters {
        Some(s) => match check_known(linter_configs, s, false) {
            Err(e) => {
                return Err(e);
            },
            Ok(()) => {},
        },
        None => {},
    }
    let mut out: Vec<Linter> = Vec::new();
    let mut n: usize = 0;
    proof {
        assert(configs.take(0) =~= Seq::<LintConfig>::empty());
    }
    while n < linter_configs.len()
        invariant
            configs == linter_configs@,
            skipped == opt_strings(skipped_linters),
            taken == opt_strings(taken_linters),
            n <= linter_configs.len(),
            out@.len() == kept_configs(configs.take(n as int), skipped, taken).len(),
            forall|j: int|
                0 <= j < out@.len() ==> #[trigger] built_from(
                    out@[j],
                    kept_configs(configs.take(n as int), skipped, taken)[j],
                    config_path@,
                ),
        decreases linter_configs.len() - n,
    {
        let c = &linter_configs[n];
        proof {
            assert(configs.take(n + 1).drop_last() =~= configs.take(n as int));
        }
        let is_taken = match &taken_linters {
            Some(t) => contains_str(t, c.code.as_str()),
            None => true,
        };
        let is_skipped = match &skipped_linters {
            Some(s) => contains_str(s, c.code.as_str()),
            None => false,
        };
        if is_taken && !is_skipped {
            let exclude_patterns = match &c.exclude_patterns {
                Some(v) => copy_strings(v),
                None => Vec::new(),
            };
            let init_commands = match &c.init_command {
                Some(v) => Some(copy_strings(v)),
                None => None,
            };
            let linter = Linter {
                code: c.code.clone(),
                include_patterns: copy_strings(&c.include_patterns),
                exclude_patterns,
                commands: copy_strings(&c.command),
                init_commands,
                config_path: config_path.clone(),
            };
            proof {
                assert(strings_view(linter.exclude_patterns@) == match c.exclude_patterns {
                    Some(v) => strings_view(v@),
                    None => Seq::<Seq<char>>::empty(),
                });
                let prev = kept_configs(configs.take(n as int), skipped, taken);
                let next = kept_configs(configs.take(n + 1), skipped, taken);
                assert(next == prev.push(configs[n as int]));
                assert(built_from(linter, next[prev.len() as int], config_path@));
                assert forall|j: int|
                    0 <= j < out@.len() implies #[trigger] built_from(
                        out@[j],
                        next[j],
                        config_path@,
                    ) by {
                    assert(next[j] == prev[j]);
                }
            }
            out.push(linter);
            proof {
                let next = kept_configs(configs.take(n + 1), skipped, taken);
                assert forall|j: int|
                    0 <= j < out@.len() implies #[trigger] built_from(
                        out@[j],
                        next[j],
                        config_path@,
                    ) by {
                    if j < out@.len() - 1 {
                        assert(built_from(out@[j], next[j], config_path@));
                    }
                }
            }
        }
        n = n + 1;
    }
    proof {
        assert(configs.take(linter_configs.len() as int) =~= configs);
    }
    Ok(out)
}

/// Whether one of the arguments holds the dry-run token.
fn mentions_dryrun(args: &Vec<String>) -> (r: bool)
    ensures
        r == exists|i: int|
            0 <= i < args@.len() && #[trigger] mentions(args@[i]@, dryrun_token()),
{
    let mut i: usize = 0;
    while i < args.len()
        invariant
            i <= args.len(),
            forall|j: int| 0 <= j < i ==> !#[trigger] mentions(args@[j]@, dryrun_token()),
        decreases args.len() - i,
    {
        proof {
            reveal_strlit("{{DRYRUN}}");
        }
        if contains_text(args[i].as_str(), "{{DRYRUN}}") {
            assert(mentions(args@[i as int]@, dryrun_token()));
            return true;
        }
        i = i + 1;
    }
    false
}

/// `pat` occurs in `s`.
pub open spec fn mentions(s: Seq<char>, pat: Seq<char>) -> bool {
    exists|i: int| 0 <= i && i + pat.len() <= s.len() && #[trigger] s.subrange(i, i + pat.len()) == pat
}

/// The linter defines an init command in which no argument holds the
/// dry-run token.
pub open spec fn lacks_dryrun(c: LintConfig) -> bool {
    c.init_command matches Some(args) && forall|i: int|
        0 <= i < args@.len() ==> !#[trigger] mentions(args@[i]@, dryrun_token())
}

impl LintRunnerConfig {
    /// Checks that every init command holds the dry-run token.
    pub fn validate_init_commands(&self) -> (r: Result<(), ConfigError>)
        ensures
            r is Ok <==> forall|i: int|
                0 <= i < self.linters@.len() ==> !lacks_dryrun(#[trigger] self.linters@[i]),
            r matches Err(e) ==> e matches ConfigError::MissingDryRun(c) && exists|i: int|
                0 <= i < self.linters@.len() && #[trigger] self.linters@[i].code@ == c@
                    && lacks_dryrun(self.linters@[i]),
    {
        let mut i: usize = 0;
        while i < self.linters.len()
            invariant
                i <= self.linters.len(),
                forall|j: int| 0 <= j < i ==> !lacks_dryrun(#[trigger] self.linters@[j]),
            decreases self.linters.len() - i,
        {
            match &self.linters[i].init_command {
                Some(args) => {
                    if !mentions_dryrun(args) {
                        assert(lacks_dryrun(self.linters@[i as int]));
                        let code = self.linters[i].code.clone();
                        assert(self.linters@[i as int].code@ == code@);
                        let e = ConfigError::MissingDryRun(code);
                        assert(e matches ConfigError::MissingDryRun(c) && exists|j: int|
                            0 <= j < self.linters@.len() && #[trigger] self.linters@[j].code@ == c@
                                && lacks_dryrun(self.linters@[j]));
                        return Err(e);
                    }
                },
                None => {},
            }
            i = i + 1;
        }
        Ok(())
    }
}

} // verus!
