//! Starting a registered project as a detached login shell, and reading
//! back the end of its log.
use vstd::prelude::*;

use crate::registry::Project;
use crate::text::{
    append_chars, chars_of, join, join_range, lines, lines_of, owned, prefixed, string_of,
    string_views, views,
};

verus! {

/// How to start a project: `shell -lc command` in `cwd`, with standard
/// output and error appended to `~/.portly/logs/<log_file>`.
#[derive(Debug, Clone)]
pub struct LaunchPlan {
    pub shell: String,
    pub args: Vec<String>,
    pub cwd: String,
    pub log_file: String,
}

pub struct LaunchPlanView {
    pub shell: Seq<char>,
    pub args: Seq<Seq<char>>,
    pub cwd: Seq<char>,
    pub log_file: Seq<char>,
}

impl View for LaunchPlan {
    type V = LaunchPlanView;

    open spec fn view(&self) -> LaunchPlanView {
        LaunchPlanView {
            shell: self.shell@,
            args: string_views(self.args@),
            cwd: self.cwd@,
            log_file: self.log_file@,
        }
    }
}

pub open spec fn msg_unknown_project() -> Seq<char> {
    "등록되지 않은 프로젝트입니다."@
}

pub open spec fn msg_folder_gone(cwd: Seq<char>) -> Seq<char> {
    "폴더가 없습니다: "@ + cwd
}

/// The plan for starting project `id`, given the project found under that
/// id, whether its folder still exists, and the user's `$SHELL`: an unknown
/// project or a vanished folder is refused; the shell defaults to
/// `/bin/zsh`; `-l` makes it a login shell so that the user's PATH and
/// version managers apply, `-c` runs the command, passed as one argument.
pub open spec fn launch_plan(
    id: Seq<char>,
    project: Option<crate::registry::ProjectView>,
    cwd_is_dir: bool,
    shell_env: Option<Seq<char>>,
) -> Result<LaunchPlanView, Seq<char>> {
    match project {
        None => Err(msg_unknown_project()),
        Some(p) => if !cwd_is_dir {
            Err(msg_folder_gone(p.cwd))
        } else {
            Ok(
                LaunchPlanView {
                    shell: match shell_env {
                        Some(s) => s,
                        None => "/bin/zsh"@,
                    },
                    args: seq!["-lc"@, p.command],
                    cwd: p.cwd,
                    log_file: id + ".log"@,
                },
            )
        },
    }
}

pub open spec fn plan_result_view(r: Result<LaunchPlan, String>) -> Result<
    LaunchPlanView,
    Seq<char>,
> {
    match r {
        Ok(p) => Ok(p@),
        Err(e) => Err(e@),
    }
}

/// Decide how to start project `id` (see `launch_plan`).
pub fn plan_launch(
    id: &str,
    project: Option<Project>,
    cwd_is_dir: bool,
    shell_env: Option<String>,
) -> (r: Result<LaunchPlan, String>)
    ensures
        plan_result_view(r) == launch_plan(
            id@,
            match project {
                Some(p) => Some(p@),
                None => None,
            },
            cwd_is_dir,
            match shell_env {
                Some(s) => Some(s@),
                None => None,
            },
        ),
{
    let p = match project {
        Some(p) => p,
        None => {
            return Err(owned("등록되지 않은 프로젝트입니다."));
        },
    };
    if !cwd_is_dir {
        let c = chars_of(p.cwd.as_str());
        return Err(prefixed("폴더가 없습니다: ", &c));
    }
    let shell = match shell_env {
        Some(s) => s,
        None => owned("/bin/zsh"),
    };
    let mut args: Vec<String> = Vec::new();
    args.push(owned("-lc"));
    args.push(p.command);
    assert(string_views(args@) =~= seq!["-lc"@, p@.command]);
    let mut log = chars_of(id);
    let ext = chars_of(".log");
    append_chars(&mut log, &ext);
    Ok(LaunchPlan { shell, args, cwd: p.cwd, log_file: string_of(&log) })
}

/// The last `n` lines (all of them when there are fewer).
pub open spec fn last_lines(ls: Seq<Seq<char>>, n: nat) -> Seq<Seq<char>> {
    if n >= ls.len() {
        ls
    } else {
        ls.skip(ls.len() - n)
    }
}

/// The last `n` lines of a log, joined with `'\n'`.
pub open spec fn log_tail(text: Seq<char>, n: nat) -> Seq<char> {
    join(last_lines(lines(text), n), seq!['\n'])
}

/// The last `n` lines of `text`, joined with newlines.
pub fn tail_lines(text: &str, n: usize) -> (r: String)
    ensures
        r@ == log_tail(text@, n as nat),
{
    let chars = chars_of(text);
    let ls = lines_of(&chars);
    let start = if n >= ls.len() {
        0
    } else {
        ls.len() - n
    };
    let mut nl: Vec<char> = Vec::new();
    nl.push('\n');
    let joined = join_range(&ls, start, ls.len(), &nl);
    assert(views(ls@).subrange(start as int, ls.len() as int) =~= last_lines(
        lines(text@),
        n as nat,
    ));
    assert(nl@ =~= seq!['\n']);
    string_of(&joined)
}

} // verus!
