//! Git integration: the pre-commit hook, and the arguments and output of the
//! `git` commands that prep runs.

use vstd::prelude::*;
use crate::bridge::string_of;
use crate::text::{chars_of, contains, push_str, spec_contains, spec_lines, split_lines, views};

verus! {

/// The hook subcommands.
pub enum HooksAction {
    /// Install the pre-commit hook.
    Install { force: bool, all: bool },
    /// Remove the pre-commit hook.
    Uninstall,
    /// Show whether the hook is installed.
    Status,
    /// Run the hook's checks now.
    Run { fix: bool },
}

/// What is known of the repository before a hook command runs.
pub struct HookEnv {
    /// `.git/hooks` exists.
    pub hooks_dir_exists: bool,
    /// `.git/hooks/pre-commit` exists.
    pub hook_exists: bool,
    /// The path of the running prep program, or `prep` when unknown.
    pub prep_path: String,
}

/// One thing to do for a hook command, in order.
pub enum HookStep {
    /// Print a line.
    Print(String),
    /// Write the hook script to `path` and make it executable.
    WriteHook { path: String, script: String },
    /// Remove the hook at `path`.
    RemoveHook { path: String },
    /// Print the content of the hook at `path`, under `Hook content:`.
    ShowHook { path: String },
    /// Run `program arg`, printing `failure` when it does not succeed.
    RunPrep { program: String, arg: String, failure: String },
}

/// A hook step as a mathematical value.
pub enum HookStepView {
    Print(Seq<char>),
    WriteHook(Seq<char>, Seq<char>),
    RemoveHook(Seq<char>),
    ShowHook(Seq<char>),
    RunPrep(Seq<char>, Seq<char>, Seq<char>),
}

impl View for HookStep {
    type V = HookStepView;

    open spec fn view(&self) -> HookStepView {
        match self {
            HookStep::Print(m) => HookStepView::Print(m@),
            HookStep::WriteHook { path, script } => HookStepView::WriteHook(path@, script@),
            HookStep::RemoveHook { path } => HookStepView::RemoveHook(path@),
            HookStep::ShowHook { path } => HookStepView::ShowHook(path@),
            HookStep::RunPrep { program, arg, failure } => HookStepView::RunPrep(
                program@,
                arg@,
                failure@,
            ),
        }
    }
}

/// The views of a list of hook steps.
pub open spec fn hook_views(v: Seq<HookStep>) -> Seq<HookStepView> {
    v.map_values(|s: HookStep| s@)
}

/// Where the pre-commit hook lives.
pub open spec fn hook_path() -> Seq<char> {
    ".git/hooks/pre-commit"@
}

/// The pre-commit hook script, which runs `prep audit` and `prep fix
/// --dry-run` with the program at `prep` and stops the commit when either
/// fails.
pub open spec fn spec_hook_script(prep: Seq<char>) -> Seq<char> {
    "#!/bin/sh\n# prep pre-commit hook\n# Using absolute path: "@ + prep
        + "\n\necho \"Running prep audit...\"\n"@ + prep
        + " audit\nif [ $? -ne 0 ]; then\n    echo \"Aborting commit due to prep audit errors.\"\n    exit 1\nfi\n\necho \"Running prep fix --dry-run...\"\n"@
        + prep
        + " fix --dry-run\nif [ $? -ne 0 ]; then\n    echo \"Aborting commit due to prep fix issues.\"\n    exit 1\nfi\n\necho \"prep checks passed.\"\n"@
}

/// The pre-commit hook script for the program at `prep`.
pub fn hook_script(prep: &str) -> (res: String)
    ensures
        res@ == spec_hook_script(prep@),
{
    let mut s = chars_of("#!/bin/sh\n# prep pre-commit hook\n# Using absolute path: ");
    push_str(&mut s, prep);
    push_str(&mut s, "\n\necho \"Running prep audit...\"\n");
    push_str(&mut s, prep);
    push_str(
        &mut s,
        " audit\nif [ $? -ne 0 ]; then\n    echo \"Aborting commit due to prep audit errors.\"\n    exit 1\nfi\n\necho \"Running prep fix --dry-run...\"\n",
    );
    push_str(&mut s, prep);
    push_str(
        &mut s,
        " fix --dry-run\nif [ $? -ne 0 ]; then\n    echo \"Aborting commit due to prep fix issues.\"\n    exit 1\nfi\n\necho \"prep checks passed.\"\n",
    );
    string_of(s.as_slice())
}

/// The steps of a hook command.
pub open spec fn spec_manage_hooks(
    action: HooksAction,
    hooks_dir_exists: bool,
    hook_exists: bool,
    prep: Seq<char>,
) -> Seq<HookStepView> {
    match action {
        HooksAction::Install { force, all } => if !hooks_dir_exists {
            seq![HookStepView::Print("Not a git repository. Run `git init` first."@)]
        } else if hook_exists && !force {
            seq![HookStepView::Print("pre-commit hook already exists. Use --force to overwrite."@)]
        } else {
            seq![
                HookStepView::WriteHook(hook_path(), spec_hook_script(prep)),
                HookStepView::Print("pre-commit hook installed at "@ + hook_path()),
            ] + if all {
                seq![HookStepView::Print("Installing other hooks... (not yet implemented)"@)]
            } else {
                seq![]
            }
        },
        HooksAction::Uninstall => if hook_exists {
            seq![
                HookStepView::RemoveHook(hook_path()),
                HookStepView::Print("pre-commit hook removed."@),
            ]
        } else {
            seq![HookStepView::Print("No pre-commit hook found."@)]
        },
        HooksAction::Status => if hook_exists {
            seq![
                HookStepView::Print("pre-commit hook is installed."@),
                HookStepView::ShowHook(hook_path()),
            ]
        } else {
            seq![HookStepView::Print("No pre-commit hook installed."@)]
        },
        HooksAction::Run { fix } => if fix {
            seq![
                HookStepView::Print("Running prep fix..."@),
                HookStepView::RunPrep(prep, "fix"@, "prep fix failed."@),
            ]
        } else {
            seq![
                HookStepView::Print("Running prep audit..."@),
                HookStepView::RunPrep(prep, "audit"@, "prep audit failed."@),
            ]
        },
    }
}

fn say(m: &str) -> (res: HookStep)
    ensures
        res@ == HookStepView::Print(m@),
{
    HookStep::Print(m.to_owned())
}

/// The steps of a hook command, given what is known of the repository.
pub fn manage_hooks(action: &HooksAction, env: &HookEnv) -> (res: Vec<HookStep>)
    ensures
        hook_views(res@) == spec_manage_hooks(
            *action,
            env.hooks_dir_exists,
            env.hook_exists,
            env.prep_path@,
        ),
{
    let path = ".git/hooks/pre-commit";
    let mut steps: Vec<HookStep> = Vec::new();
    match action {
        HooksAction::Install { force, all } => {
            if !env.hooks_dir_exists {
                steps.push(say("Not a git repository. Run `git init` first."));
            } else if env.hook_exists && !*force {
                steps.push(say("pre-commit hook already exists. Use --force to overwrite."));
            } else {
                steps.push(
                    HookStep::WriteHook {
                        path: path.to_owned(),
                        script: hook_script(env.prep_path.as_str()),
                    },
                );
                let mut m = chars_of("pre-commit hook installed at ");
                push_str(&mut m, path);
                steps.push(HookStep::Print(string_of(m.as_slice())));
                if *all {
                    steps.push(say("Installing other hooks... (not yet implemented)"));
                }
            }
        },
        HooksAction::Uninstall => {
            if env.hook_exists {
                steps.push(HookStep::RemoveHook { path: path.to_owned() });
                steps.push(say("pre-commit hook removed."));
            } else {
                steps.push(say("No pre-commit hook found."));
            }
        },
        HooksAction::Status => {
            if env.hook_exists {
                steps.push(say("pre-commit hook is installed."));
                steps.push(HookStep::ShowHook { path: path.to_owned() });
            } else {
                steps.push(say("No pre-commit hook installed."));
            }
        },
        HooksAction::Run { fix } => {
            if *fix {
                steps.push(say("Running prep fix..."));
                steps.push(
                    HookStep::RunPrep {
                        program: env.prep_path.clone(),
                        arg: "fix".to_owned(),
                        failure: "prep fix failed.".to_owned(),
                    },
                );
            } else {
                steps.push(say("Running prep audit..."));
                steps.push(
                    HookStep::RunPrep {
                        program: env.prep_path.clone(),
                        arg: "audit".to_owned(),
                        failure: "prep audit failed.".to_owned(),
                    },
                );
            }
        },
    }
    assert(hook_views(steps@) =~= spec_manage_hooks(
        *action,
        env.hooks_dir_exists,
        env.hook_exists,
        env.prep_path@,
    ));
    steps
}

// ---------------------------------------------------------------------
// git command lines and output
// ---------------------------------------------------------------------

/// The views of a list of strings.
pub open spec fn arg_views(v: Seq<String>) -> Seq<Seq<char>> {
    v.map_values(|s: String| s@)
}

/// The arguments of `git` for `prep blame`.
pub open spec fn spec_blame_args(since: Option<Seq<char>>, short: bool) -> Seq<Seq<char>> {
    seq!["blame"@] + match since {
        Some(s) => seq!["--since"@, s],
        None => seq![],
    } + if short {
        seq!["-s"@]
    } else {
        seq![]
    } + seq!["."@]
}

/// The arguments of `git` for `prep blame`.
pub fn blame_args(since: Option<&str>, short: bool) -> (res: Vec<String>)
    ensures
        arg_views(res@) == spec_blame_args(
            match since {
                Some(s) => Some(s@),
                None => None,
            },
            short,
        ),
{
    let mut args: Vec<String> = Vec::new();
    args.push("blame".to_owned());
    match since {
        Some(s) => {
            args.push("--since".to_owned());
            args.push(s.to_owned());
        },
        None => {},
    }
    if short {
        args.push("-s".to_owned());
    }
    args.push(".".to_owned());
    assert(arg_views(args@) =~= spec_blame_args(
        match since {
            Some(s) => Some(s@),
            None => None,
        },
        short,
    ));
    args
}

/// The arguments of `git` for `prep diff` (uncommitted changes are what
/// `git diff` shows anyway).
pub open spec fn spec_diff_args(staged: bool, base: Option<Seq<char>>) -> Seq<Seq<char>> {
    seq!["diff"@] + if staged {
        seq!["--staged"@]
    } else {
        seq![]
    } + match base {
        Some(b) => seq![b],
        None => seq![],
    }
}

/// The arguments of `git` for `prep diff`.
pub fn diff_args(staged: bool, uncommitted: bool, base: Option<&str>) -> (res: Vec<String>)
    ensures
        arg_views(res@) == spec_diff_args(
            staged,
            match base {
                Some(b) => Some(b@),
                None => None,
            },
        ),
{
    let mut args: Vec<String> = Vec::new();
    args.push("diff".to_owned());
    if staged {
        args.push("--staged".to_owned());
    }
    match base {
        Some(b) => args.push(b.to_owned()),
        None => {},
    }
    assert(arg_views(args@) =~= spec_diff_args(
        staged,
        match base {
            Some(b) => Some(b@),
            None => None,
        },
    ));
    args
}

/// The arguments of `git` for `prep compare`.
pub fn compare_args(first: &str, second: &str) -> (res: Vec<String>)
    ensures
        arg_views(res@) == seq!["diff"@, first@, second@],
{
    let mut args: Vec<String> = Vec::new();
    args.push("diff".to_owned());
    args.push(first.to_owned());
    args.push(second.to_owned());
    assert(arg_views(args@) =~= seq!["diff"@, first@, second@]);
    args
}

/// The lines that mention `author`, in order.
pub open spec fn lines_with(lines: Seq<Seq<char>>, author: Seq<char>) -> Seq<Seq<char>>
    decreases lines.len(),
{
    if lines.len() == 0 {
        seq![]
    } else {
        lines_with(lines.drop_last(), author) + if spec_contains(lines.last(), author) {
            seq![lines.last()]
        } else {
            seq![]
        }
    }
}

/// The lines of `git blame` output that mention `author`.
pub fn blame_lines_by(output: &str, author: &str) -> (res: Vec<String>)
    ensures
        arg_views(res@) == lines_with(spec_lines(output@), author@),
{
    let lines = split_lines(chars_of(output).as_slice());
    let ghost lv = views(lines@);
    let a = chars_of(author);
    let mut out: Vec<String> = Vec::new();
    let mut i: usize = 0;
    assert(arg_views(out@) =~= lines_with(lv.take(0), author@));
    while i < lines.len()
        invariant
            i <= lines.len(),
            lv == views(lines@),
            a@ == author@,
            arg_views(out@) == lines_with(lv.take(i as int), author@),
        decreases lines.len() - i,
    {
        assert(lv.take(i + 1).drop_last() == lv.take(i as int));
        assert(lv.take(i + 1).last() == lines@[i as int]@);
        if contains(lines[i].as_slice(), a.as_slice()) {
            let ghost before = arg_views(out@);
            out.push(string_of(lines[i].as_slice()));
            assert(arg_views(out@) =~= before.push(lines@[i as int]@));
        }
        i = i + 1;
    }
    assert(lv.take(lines.len() as int) == lv);
    out
}

} // verus!
