//! A linter: which files it takes, how it is invoked, and how what it
//! reported becomes lint messages.
use vstd::prelude::*;
use crate::glob_pattern::{glob_matches, glob_valid, pattern_error, pattern_matches};
use crate::lint_message::{LintMessage, RawLintMessage};
use crate::path::{parent_text, path_relative_from, relative_path, AbsPath};
use crate::text::{
    drop_empty, replace_all, replace_text, split_nonempty, split_on,
    strings_view,
};

verus! {

/// The placeholder in a linter's command for the file that lists the paths to lint.
pub open spec fn pathsfile_token() -> Seq<char> {
    "{{PATHSFILE}}"@
}

/// The placeholder in a linter's init command for the dry-run flag.
pub open spec fn dryrun_token() -> Seq<char> {
    "{{DRYRUN}}"@
}

/// The views of a sequence of paths.
pub open spec fn paths_view(v: Seq<AbsPath>) -> Seq<Seq<char>> {
    v.map_values(|p: AbsPath| p@)
}

/// `pattern` is a valid glob that matches `file` made relative to `dir`.
pub open spec fn pattern_hits(pattern: Seq<char>, file: Seq<char>, dir: Seq<char>) -> bool {
    glob_valid(pattern) && match relative_path(file, dir) {
        Some(rel) => glob_matches(pattern, rel),
        None => false,
    }
}

/// One of the patterns hits `file` relative to `dir`.
pub open spec fn any_hits(patterns: Seq<Seq<char>>, file: Seq<char>, dir: Seq<char>) -> bool {
    exists|i: int| 0 <= i < patterns.len() && #[trigger] pattern_hits(patterns[i], file, dir)
}

/// Each path followed by a newline.
pub open spec fn paths_listing(ps: Seq<Seq<char>>) -> Seq<char>
    decreases ps.len(),
{
    if ps.len() == 0 {
        Seq::<char>::empty()
    } else {
        paths_listing(ps.drop_last()) + ps.last() + seq!['\n']
    }
}

/// Whether the glob `pattern` matches the path `from` made relative to `base`.
/// A malformed pattern matches nothing.
pub fn matches_relative_path(base: &str, from: &str, pattern: &str) -> (r: bool)
    ensures
        r == pattern_hits(pattern@, from@, base@),
{
    if pattern_error(pattern).is_some() {
        return false;
    }
    match path_relative_from(from, base) {
        Some(rel) => pattern_matches(pattern, rel.as_str()),
        None => false,
    }
}

/// Whether one of the patterns hits `file` relative to `dir`.
fn any_pattern_hits(patterns: &Vec<String>, file: &str, dir: &str) -> (r: bool)
    ensures
        r == any_hits(strings_view(patterns@), file@, dir@),
{
    let ghost ps = strings_view(patterns@);
    let mut i: usize = 0;
    while i < patterns.len()
        invariant
            ps == strings_view(patterns@),
            i <= patterns.len(),
            forall|j: int| 0 <= j < i ==> !#[trigger] pattern_hits(ps[j], file@, dir@),
        decreases patterns.len() - i,
    {
        if matches_relative_path(dir, file, patterns[i].as_str()) {
            assert(pattern_hits(ps[i as int], file@, dir@));
            return true;
        }
        i = i + 1;
    }
    false
}

/// The text of a list of paths, one per line.
pub fn paths_file_text(paths: &Vec<AbsPath>) -> (r: String)
    ensures
        r@ == paths_listing(paths_view(paths@)),
{
    let ghost ps = paths_view(paths@);
    let mut out = String::new();
    let mut i: usize = 0;
    while i < paths.len()
        invariant
            ps == paths_view(paths@),
            i <= paths.len(),
            out@ == paths_listing(ps.take(i as int)),
        decreases paths.len() - i,
    {
        proof {
            assert(ps.take(i + 1).drop_last() =~= ps.take(i as int));
            reveal_strlit("\n");
        }
        out.append(paths[i].as_pathbuf());
        out.append("\n");
        i = i + 1;
    }
    proof {
        assert(ps.take(paths.len() as int) =~= ps);
    }
    out
}

/// The non-empty lines of a linter's output.
pub fn output_lines(stdout: &str) -> (r: Vec<String>)
    ensures
        strings_view(r@) == drop_empty(split_on(stdout@, '\n')),
{
    split_nonempty(stdout, '\n')
}

/// What running a linter's command came to.
pub enum LinterOutcome {
    /// The command could not be started; the reason.
    SpawnFailed(String),
    /// The command exited with a failing status.
    Failed { stdout: String, stderr: String },
    /// The command succeeded: each non-empty line of its output read as a
    /// lint message, or the reason it could not be read.
    Parsed(Vec<Result<RawLintMessage, String>>),
}

/// The messages that the lines of a linter's output stand for, or none where
/// a line could not be read or was refused.
pub open spec fn parsed_messages(lines: Seq<Result<RawLintMessage, String>>) -> Option<
    Seq<LintMessage>,
>
    decreases lines.len(),
{
    if lines.len() == 0 {
        Some(Seq::<LintMessage>::empty())
    } else {
        match parsed_messages(lines.drop_last()) {
            None => None,
            Some(ms) => match lines.last() {
                Ok(raw) => if LintMessage::accepts(raw) {
                    Some(
                        ms.push(
                            LintMessage::from_raw_spec(
                                raw,
                                crate::lint_message::LintSeverity::from_wire_text(
                                    raw.severity@,
                                ).unwrap(),
                            ),
                        ),
                    )
                } else {
                    None
                },
                Err(_) => None,
            },
        }
    }
}

pub proof fn lemma_parsed_none_stays(lines: Seq<Result<RawLintMessage, String>>, n: int)
    requires
        0 <= n <= lines.len(),
        parsed_messages(lines.take(n)) is None,
    ensures
        parsed_messages(lines) is None,
    decreases lines.len() - n,
{
    if n < lines.len() {
        assert(lines.take(n + 1).drop_last() =~= lines.take(n));
        lemma_parsed_none_stays(lines, n + 1);
    } else {
        assert(lines.take(n) =~= lines);
    }
}

/// Every message that the lines stand for has both or neither of the texts
/// of a patch.
pub proof fn lemma_parsed_messages_wf(lines: Seq<Result<RawLintMessage, String>>)
    ensures
        parsed_messages(lines) matches Some(ms) ==> forall|i: int|
            0 <= i < ms.len() ==> (#[trigger] ms[i]).wf(),
    decreases lines.len(),
{
    if lines.len() > 0 {
        lemma_parsed_messages_wf(lines.drop_last());
    }
}

/// A linter, ready to be run on a set of files.
pub struct Linter {
    /// Its code, unique among the configured linters.
    pub code: String,
    /// Globs, relative to the config file's directory, of the files it takes.
    pub include_patterns: Vec<String>,
    /// Globs of the files it never takes.
    pub exclude_patterns: Vec<String>,
    /// The program and its arguments.
    pub commands: Vec<String>,
    /// The program and arguments that set the linter up.
    pub init_commands: Option<Vec<String>>,
    /// The config file that defined the linter.
    pub config_path: AbsPath,
}

/// What it takes to invoke a linter on the files it matched.
pub struct Invocation {
    /// The matched files, in the order given.
    pub matched: Vec<AbsPath>,
    /// The content of the paths file: each matched file on a line.
    pub paths_text: String,
    /// The directory to run the command in.
    pub cwd: String,
}

impl Linter {
    /// The directory of the config file.
    pub open spec fn config_dir(&self) -> Seq<char> {
        parent_text(self.config_path@)
    }

    /// The linter takes `file`: an include pattern hits it and no exclude
    /// pattern does.
    pub open spec fn selects(&self, file: Seq<char>) -> bool {
        any_hits(strings_view(self.include_patterns@), file, self.config_dir()) && !any_hits(
            strings_view(self.exclude_patterns@),
            file,
            self.config_dir(),
        )
    }

    /// The files the linter takes, in order.
    pub open spec fn matches_of(&self, files: Seq<Seq<char>>) -> Seq<Seq<char>>
        decreases files.len(),
    {
        if files.len() == 0 {
            files
        } else if self.selects(files.last()) {
            self.matches_of(files.drop_last()).push(files.last())
        } else {
            self.matches_of(files.drop_last())
        }
    }

    /// The arguments of the command, with the paths file in place of its token.
    pub open spec fn command_args_spec(&self, pathsfile: Seq<char>, r: Seq<Seq<char>>) -> bool {
        &&& r.len() == self.commands@.len()
        &&& r.len() > 0 ==> r[0] == self.commands@[0]@
        &&& forall|i: int|
            1 <= i < r.len() ==> #[trigger] r[i] == replace_all(
                self.commands@[i]@,
                pathsfile_token(),
                pathsfile,
            )
    }

    /// The directory of the config file.
    pub fn get_config_dir(&self) -> (r: String)
        ensures
            r@ == self.config_dir(),
    {
        self.config_path.parent()
    }

    /// The files among `files` that the linter takes, in order.
    pub fn get_matches(&self, files: &Vec<AbsPath>) -> (r: Vec<AbsPath>)
        ensures
            paths_view(r@) == self.matches_of(paths_view(files@)),
    {
        let dir = self.get_config_dir();
        let ghost fs = paths_view(files@);
        let mut out: Vec<AbsPath> = Vec::new();
        let mut i: usize = 0;
        proof {
            assert(fs.take(0) =~= Seq::<Seq<char>>::empty());
            assert(paths_view(out@) =~= Seq::<Seq<char>>::empty());
        }
        while i < files.len()
            invariant
                fs == paths_view(files@),
                dir@ == self.config_dir(),
                i <= files.len(),
                paths_view(out@) == self.matches_of(fs.take(i as int)),
            decreases files.len() - i,
        {
            proof {
                assert(fs.take(i + 1).drop_last() =~= fs.take(i as int));
            }
            let file = files[i].as_pathbuf();
            if any_pattern_hits(&self.include_patterns, file, dir.as_str())
                && !any_pattern_hits(&self.exclude_patterns, file, dir.as_str()) {
                let copy = files[i].clone();
                proof {
                    assert(paths_view(out@.push(copy)) =~= paths_view(out@).push(copy@));
                }
                out.push(copy);
            }
            i = i + 1;
        }
        proof {
            assert(fs.take(files.len() as int) =~= fs);
        }
        out
    }

    /// Decides whether the linter runs on `files`: it does not where it takes
    /// none of them, and otherwise is given the files it takes.
    pub fn plan_run(&self, files: &Vec<AbsPath>) -> (r: Option<Invocation>)
        ensures
            r is None <==> self.matches_of(paths_view(files@)).len() == 0,
            r matches Some(inv) ==> {
                &&& paths_view(inv.matched@) == self.matches_of(paths_view(files@))
                &&& inv.paths_text@ == paths_listing(paths_view(inv.matched@))
                &&& inv.cwd@ == self.config_dir()
            },
    {
        let matched = self.get_matches(files);
        if matched.len() == 0 {
            return None;
        }
        let paths_text = paths_file_text(&matched);
        let cwd = self.get_config_dir();
        Some(Invocation { matched, paths_text, cwd })
    }

    /// The command line, with `pathsfile` in place of each occurrence of the
    /// paths-file token in the arguments.
    pub fn command_args(&self, pathsfile: &str) -> (r: Vec<String>)
        ensures
            self.command_args_spec(pathsfile@, strings_view(r@)),
    {
        let mut out: Vec<String> = Vec::new();
        let mut i: usize = 0;
        while i < self.commands.len()
            invariant
                i <= self.commands.len(),
                out@.len() == i,
                i > 0 ==> out@[0]@ == self.commands@[0]@,
                forall|j: int|
                    1 <= j < i ==> #[trigger] out@[j]@ == replace_all(
                        self.commands@[j]@,
                        pathsfile_token(),
                        pathsfile@,
                    ),
            decreases self.commands.len() - i,
        {
            if i == 0 {
                out.push(self.commands[0].clone());
            } else {
                proof {
                    reveal_strlit("{{PATHSFILE}}");
                }
                out.push(replace_text(self.commands[i].as_str(), "{{PATHSFILE}}", pathsfile));
            }
            i = i + 1;
        }
        out
    }

    /// The init command line for a run with or without `dry_run`, with `1` or
    /// `0` in place of each occurrence of the dry-run token; none where the
    /// linter has no init command.
    pub fn init_args(&self, dry_run: bool) -> (r: Option<Vec<String>>)
        ensures
            match self.init_commands {
                None => r is None,
                Some(cmds) => if cmds@.len() == 0 {
                    r is None
                } else {
                    r matches Some(args) && args@.len() == cmds@.len() && forall|i: int|
                        0 <= i < args@.len() ==> #[trigger] args@[i]@ == replace_all(
                            cmds@[i]@,
                            dryrun_token(),
                            if dry_run {
                                "1"@
                            } else {
                                "0"@
                            },
                        )
                },
            },
    {
        match &self.init_commands {
            None => None,
            Some(cmds) => {
                if cmds.len() == 0 {
                    return None;
                }
                let flag = if dry_run {
                    "1"
                } else {
                    "0"
                };
                let mut out: Vec<String> = Vec::new();
                let mut i: usize = 0;
                while i < cmds.len()
                    invariant
                        i <= cmds.len(),
                        out@.len() == i,
                        flag@ == if dry_run {
                            "1"@
                        } else {
                            "0"@
                        },
                        forall|j: int|
                            0 <= j < i ==> #[trigger] out@[j]@ == replace_all(
                                cmds@[j]@,
                                dryrun_token(),
                                flag@,
                            ),
                    decreases cmds.len() - i,
                {
                    proof {
                        reveal_strlit("{{DRYRUN}}");
                    }
                    out.push(replace_text(cmds[i].as_str(), "{{DRYRUN}}", flag));
                    i = i + 1;
                }
                Some(out)
            },
        }
    }

    /// The context of a linter whose command could not be started.
    pub open spec fn spawn_failure_context(commands: Seq<String>, error: Seq<char>) -> Seq<char> {
        if commands.len() > 0 {
            "Failed to execute linter command "@ + commands[0]@ + ": "@ + error
        } else {
            "Failed to execute linter command: "@ + error
        }
    }

    /// The context of a linter whose command exited with a failing status.
    pub open spec fn exit_failure_context(stdout: Seq<char>, stderr: Seq<char>) -> Seq<char> {
        "Linter command failed with non-zero exit code.\nSTDERR:\n"@ + stderr + "\n\nSTDOUT:"@
            + stdout + "\n"@
    }

    /// The start of the context of a linter whose output could not be read.
    pub open spec fn parse_failure_preamble(code: Seq<char>) -> Seq<char> {
        "Failed to deserialize output for lint adapter: '"@ + code + "'"@
    }

    /// The messages that a run of the linter gives: what it reported where
    /// every line of its output was read and accepted, else one general
    /// failure message for the linter.
    pub fn messages_from_outcome(&self, outcome: LinterOutcome) -> (r: Vec<LintMessage>)
        ensures
            match outcome {
                LinterOutcome::SpawnFailed(e) => r@.len() == 1 && LintMessage::failure_spec(
                    self.code@,
                    Linter::spawn_failure_context(self.commands@, e@),
                    r@[0],
                ),
                LinterOutcome::Failed { stdout, stderr } => r@.len() == 1
                    && LintMessage::failure_spec(
                    self.code@,
                    Linter::exit_failure_context(stdout@, stderr@),
                    r@[0],
                ),
                LinterOutcome::Parsed(lines) => match parsed_messages(lines@) {
                    Some(ms) => r@ == ms,
                    None => r@.len() == 1 && exists|reason: Seq<char>|
                        LintMessage::failure_spec(
                            self.code@,
                            #[trigger] (Linter::parse_failure_preamble(self.code@) + reason),
                            r@[0],
                        ),
                },
            },
            forall|i: int| 0 <= i < r@.len() ==> (#[trigger] r@[i]).wf(),
    {

        match outcome {
            LinterOutcome::SpawnFailed(e) => {
                let mut context = String::from_str("Failed to execute linter command");
                if self.commands.len() > 0 {
                    context.append(" ");
                    context.append(self.commands[0].as_str());
                }
                context.append(": ");
                context.append(e.as_str());
                proof {
                    reveal_strlit("Failed to execute linter command");
                    reveal_strlit("Failed to execute linter command ");
                    reveal_strlit("Failed to execute linter command: ");
                    reveal_strlit(" ");
                    reveal_strlit(": ");
                    if self.commands@.len() > 0 {
                        assert(context@ =~= "Failed to execute linter command "@
                            + self.commands@[0]@ + ": "@ + e@);
                    } else {
                        assert(context@ =~= "Failed to execute linter command: "@ + e@);
                    }
                }
                let m = LintMessage::linter_failure(self.code.as_str(), context.as_str());
                vec![m]
            },
            LinterOutcome::Failed { stdout, stderr } => {
                let mut context = String::from_str(
                    "Linter command failed with non-zero exit code.\nSTDERR:\n",
                );
                context.append(stderr.as_str());
                context.append("\n\nSTDOUT:");
                context.append(stdout.as_str());
                context.append("\n");
                let m = LintMessage::linter_failure(self.code.as_str(), context.as_str());
                vec![m]
            },
            LinterOutcome::Parsed(lines) => {
                proof {
                    lemma_parsed_messages_wf(lines@);
                }
                self.messages_from_lines(&lines)
            },
        }
    }

    fn parse_failure(&self, reason: &str) -> (r: Vec<LintMessage>)
        ensures
            r@.len() == 1,
            LintMessage::failure_spec(
                self.code@,
                Linter::parse_failure_preamble(self.code@) + ": "@ + reason@,
                r@[0],
            ),
    {
        let mut context = String::from_str("Failed to deserialize output for lint adapter: '");
        context.append(self.code.as_str());
        context.append("'");
        context.append(": ");
        context.append(reason);
        proof {
            assert(context@ =~= Linter::parse_failure_preamble(self.code@) + ": "@ + reason@);
        }
        let m = LintMessage::linter_failure(self.code.as_str(), context.as_str());
        vec![m]
    }

    fn messages_from_lines(&self, lines: &Vec<Result<RawLintMessage, String>>) -> (r: Vec<
        LintMessage,
    >)
        ensures
            match parsed_messages(lines@) {
                Some(ms) => r@ == ms,
                None => r@.len() == 1 && exists|reason: Seq<char>|
                    LintMessage::failure_spec(
                        self.code@,
                        #[trigger] (Linter::parse_failure_preamble(self.code@) + reason),
                        r@[0],
                    ),
            },
    {
        let mut out: Vec<LintMessage> = Vec::new();
        let mut i: usize = 0;
        proof {
            assert(lines@.take(0) =~= Seq::<Result<RawLintMessage, String>>::empty());
        }
        while i < lines.len()
            invariant
                i <= lines.len(),
                parsed_messages(lines@.take(i as int)) == Some(out@),
            decreases lines.len() - i,
        {
            proof {
                assert(lines@.take(i + 1).drop_last() =~= lines@.take(i as int));
            }
            match &lines[i] {
                Ok(raw) => match LintMessage::from_raw(raw) {
                    Ok(m) => {
                        out.push(m);
                    },
                    Err(e) => {
                        proof {
                            lemma_parsed_none_stays(lines@, i + 1);
                        }
                        let reason = e.message();
                        let r = self.parse_failure(reason);
                        assert(Linter::parse_failure_preamble(self.code@) + ": "@ + reason@
                            =~= Linter::parse_failure_preamble(self.code@) + (": "@ + reason@));
                        return r;
                    },
                },
                Err(reason) => {
                    proof {
                        lemma_parsed_none_stays(lines@, i + 1);
                    }
                    let r = self.parse_failure(reason.as_str());
                    assert(Linter::parse_failure_preamble(self.code@) + ": "@ + reason@
                        =~= Linter::parse_failure_preamble(self.code@) + (": "@ + reason@));
                    return r;
                },
            }
            i = i + 1;
        }
        proof {
            assert(lines@.take(lines.len() as int) =~= lines@);
        }
        out
    }
}

/// The dry-run flag as it replaces the token.
pub open spec fn dryrun_flag(dry_run: bool) -> Seq<char> {
    if dry_run {
        "1"@
    } else {
        "0"@
    }
}

/// The linter has a non-empty init command.
pub open spec fn has_init(l: Linter) -> bool {
    match l.init_commands {
        Some(cmds) => cmds@.len() > 0,
        None => false,
    }
}

/// The linters that have an init command, in order.
pub open spec fn with_init(ls: Seq<Linter>) -> Seq<Linter>
    decreases ls.len(),
{
    if ls.len() == 0 {
        ls
    } else if has_init(ls.last()) {
        with_init(ls.drop_last()).push(ls.last())
    } else {
        with_init(ls.drop_last())
    }
}

/// One init command to run: its command line and the directory to run it in.
pub struct InitStep {
    pub argv: Vec<String>,
    pub cwd: String,
}

/// The step runs the linter's init command, with the dry-run token replaced,
/// in the config file's directory.
pub open spec fn init_step_of(l: Linter, dry_run: bool, step: InitStep) -> bool {
    &&& step.cwd@ == l.config_dir()
    &&& match l.init_commands {
        Some(cmds) => step.argv@.len() == cmds@.len() && forall|i: int|
            0 <= i < cmds@.len() ==> #[trigger] step.argv@[i]@ == replace_all(
                cmds@[i]@,
                dryrun_token(),
                dryrun_flag(dry_run),
            ),
        None => false,
    }
}

/// The init commands of the linters, in order, for a run with or without
/// `dry_run`; linters without an init command are passed over.
pub fn init_plan(linters: &Vec<Linter>, dry_run: bool) -> (r: Vec<InitStep>)
    ensures
        r@.len() == with_init(linters@).len(),
        forall|k: int|
            0 <= k < r@.len() ==> init_step_of(with_init(linters@)[k], dry_run, #[trigger] r@[k]),
{
    let mut out: Vec<InitStep> = Vec::new();
    let mut i: usize = 0;
    proof {
        assert(linters@.take(0) =~= Seq::<Linter>::empty());
    }
    while i < linters.len()
        invariant
            i <= linters.len(),
            out@.len() == with_init(linters@.take(i as int)).len(),
            forall|k: int|
                0 <= k < out@.len() ==> init_step_of(
                    with_init(linters@.take(i as int))[k],
                    dry_run,
                    #[trigger] out@[k],
                ),
        decreases linters.len() - i,
    {
        proof {
            assert(linters@.take(i + 1).drop_last() =~= linters@.take(i as int));
        }
        let ghost prev = with_init(linters@.take(i as int));
        match linters[i].init_args(dry_run) {
            Some(argv) => {
                let cwd = linters[i].get_config_dir();
                let step = InitStep { argv, cwd };
                proof {
                    assert(has_init(linters@[i as int]));
                    assert(init_step_of(linters@[i as int], dry_run, step));
                }
                out.push(step);
                proof {
                    let next = with_init(linters@.take(i + 1));
                    assert(next == prev.push(linters@[i as int]));
                    assert forall|k: int| 0 <= k < out@.len() implies init_step_of(
                        next[k],
                        dry_run,
                        #[trigger] out@[k],
                    ) by {
                        if k < out@.len() - 1 {
                            assert(next[k] == prev[k]);
                        }
                    }
                }
            },
            None => {
                proof {
                    assert(!has_init(linters@[i as int]));
                }
            },
        }
        i = i + 1;
    }
    proof {
        assert(linters@.take(linters.len() as int) =~= linters@);
    }
    out
}

} // verus!
