//! Suggesting how to start a project folder: its package manager, judged by
//! its lock files, and its run script, read from `package.json`.
use vstd::prelude::*;

use crate::text::{chars_of, owned, prefixed, string_of, string_views, append_chars};

verus! {

/// Which of the files that tell the package manager the folder holds.
#[derive(Debug, Clone, Copy)]
pub struct LockFiles {
    pub pnpm_lock: bool,
    pub bun_lockb: bool,
    pub bun_lock: bool,
    pub yarn_lock: bool,
    pub package_lock: bool,
    pub package_json: bool,
}

/// What was found out about a folder.
#[derive(Debug, Clone)]
pub struct DirProbe {
    /// Whether the path is an existing folder.
    pub is_dir: bool,
    pub files: LockFiles,
    /// The text of its `package.json`, when it could be read.
    pub package_json: Option<String>,
}

/// The suggestion for a folder.
#[derive(Debug, Clone)]
pub struct Detected {
    /// `pnpm`, `yarn`, `npm`, `bun`, or empty when none was found.
    pub manager: String,
    /// The keys of the `scripts` object of `package.json`.
    pub scripts: Vec<String>,
    /// For example `pnpm dev`.
    pub suggested_command: String,
}

/// The package manager, by the first lock file found in the order pnpm,
/// bun, yarn, npm; a `package.json` without a lock file means npm.
pub open spec fn manager_of(f: LockFiles) -> Seq<char> {
    if f.pnpm_lock {
        "pnpm"@
    } else if f.bun_lockb || f.bun_lock {
        "bun"@
    } else if f.yarn_lock {
        "yarn"@
    } else if f.package_lock {
        "npm"@
    } else if f.package_json {
        "npm"@
    } else {
        ""@
    }
}

/// The keys of the object under `field` in a JSON text, in the order in
/// which `serde_json` yields them; `None` when the text is not JSON or has no
/// object under that field.
pub uninterp spec fn json_object_keys(text: Seq<char>, field: Seq<char>) -> Option<Seq<Seq<char>>>;

/// `serde_json::from_str::<serde_json::Value>`, then the keys of the object
/// under `field` (`Value::get`, `Value::as_object`, `Map::keys`). What comes
/// back is taken to be `json_object_keys` of the text and the field, and its
/// keys are distinct, as the keys of a map are; nothing more is claimed of it.
#[verifier::external_body]
fn object_keys(text: &str, field: &str) -> (r: Option<Vec<String>>)
    ensures
        match r {
            Some(v) => json_object_keys(text@, field@) == Some(string_views(v@)),
            None => json_object_keys(text@, field@) is None,
        },
        r matches Some(v) ==> forall|i: int, j: int|
            0 <= i < j < v.len() ==> #[trigger] v[i]@ != #[trigger] v[j]@,
{
    let value = serde_json::from_str::<serde_json::Value>(text).ok()?;
    value.get(field).and_then(|s| s.as_object()).map(|o| o.keys().cloned().collect())
}

/// The keys of the `scripts` object of a `package.json` text.
pub open spec fn package_scripts(text: Seq<char>) -> Option<Seq<Seq<char>>> {
    json_object_keys(text, "scripts"@)
}

/// The scripts of a `package.json` text; none when there is no text or it
/// holds no `scripts` object.
pub open spec fn scripts_of(package_json: Option<Seq<char>>) -> Seq<Seq<char>> {
    match package_json {
        Some(t) => match package_scripts(t) {
            Some(ks) => ks,
            None => seq![],
        },
        None => seq![],
    }
}

/// The script names of a `package.json` text (`None` when it could not be
/// read); empty when it does not parse or has no `scripts` object.
pub fn read_scripts(package_json: Option<&str>) -> (r: Vec<String>)
    ensures
        string_views(r@) == scripts_of(
            match package_json {
                Some(t) => Some(t@),
                None => None,
            },
        ),
        forall|i: int, j: int| 0 <= i < j < r.len() ==> #[trigger] r[i]@ != #[trigger] r[j]@,
{
    match package_json {
        Some(t) => match object_keys(t, "scripts") {
            Some(v) => v,
            None => {
                let v: Vec<String> = Vec::new();
                assert(string_views(v@) =~= seq![]);
                v
            },
        },
        None => {
            let v: Vec<String> = Vec::new();
            assert(string_views(v@) =~= seq![]);
            v
        },
    }
}

/// The script to run: `dev`, else `start`, else `serve`, else the first one.
pub open spec fn preferred_script(scripts: Seq<Seq<char>>) -> Option<Seq<char>> {
    if scripts.contains("dev"@) {
        Some("dev"@)
    } else if scripts.contains("start"@) {
        Some("start"@)
    } else if scripts.contains("serve"@) {
        Some("serve"@)
    } else if scripts.len() > 0 {
        Some(scripts[0])
    } else {
        None
    }
}

/// The command line: npm and bun need `run`, pnpm and yarn do not; with no
/// script known, `dev` by convention; with no manager, nothing.
pub open spec fn suggestion(manager: Seq<char>, script: Option<Seq<char>>) -> Seq<char> {
    if manager.len() == 0 {
        seq![]
    } else {
        match script {
            Some(s) => if manager == "npm"@ {
                "npm run "@ + s
            } else if manager == "bun"@ {
                "bun run "@ + s
            } else {
                manager + " "@ + s
            },
            None => manager + " dev"@,
        }
    }
}

pub open spec fn msg_not_folder(cwd: Seq<char>) -> Seq<char> {
    "폴더가 아닙니다: "@ + cwd
}

fn has_script(scripts: &Vec<String>, name: &String) -> (b: bool)
    ensures
        b == string_views(scripts@).contains(name@),
{
    let mut i: usize = 0;
    while i < scripts.len()
        invariant
            i <= scripts.len(),
            forall|j: int| 0 <= j < i ==> scripts@[j]@ != name@,
        decreases scripts.len() - i,
    {
        if scripts[i] == *name {
            assert(string_views(scripts@)[i as int] == name@);
            return true;
        }
        i = i + 1;
    }
    assert forall|j: int| 0 <= j < string_views(scripts@).len() implies string_views(scripts@)[j]
        != name@ by {
        assert(string_views(scripts@)[j] == scripts@[j]@);
    }
    false
}

fn pick_manager(f: LockFiles) -> (r: String)
    ensures
        r@ == manager_of(f),
{
    if f.pnpm_lock {
        owned("pnpm")
    } else if f.bun_lockb || f.bun_lock {
        owned("bun")
    } else if f.yarn_lock {
        owned("yarn")
    } else if f.package_lock {
        owned("npm")
    } else if f.package_json {
        owned("npm")
    } else {
        owned("")
    }
}

fn pick_script(scripts: &Vec<String>) -> (r: Option<String>)
    ensures
        match r {
            Some(s) => preferred_script(string_views(scripts@)) == Some(s@),
            None => preferred_script(string_views(scripts@)) is None,
        },
{
    let dev = owned("dev");
    if has_script(scripts, &dev) {
        return Some(dev);
    }
    let start = owned("start");
    if has_script(scripts, &start) {
        return Some(start);
    }
    let serve = owned("serve");
    if has_script(scripts, &serve) {
        return Some(serve);
    }
    if scripts.len() > 0 {
        assert(string_views(scripts@)[0] == scripts@[0]@);
        return Some(scripts[0].clone());
    }
    None
}

/// The command to suggest for a manager and a script.
pub fn suggest_command(manager: &String, script: &Option<String>) -> (r: String)
    ensures
        r@ == suggestion(
            manager@,
            match script {
                Some(s) => Some(s@),
                None => None,
            },
        ),
{
    if manager.as_str().is_empty() {
        return String::new();
    }
    let npm = owned("npm");
    let bun = owned("bun");
    match script {
        Some(s) => {
            let name = chars_of(s.as_str());
            if *manager == npm {
                prefixed("npm run ", &name)
            } else if *manager == bun {
                prefixed("bun run ", &name)
            } else {
                let mut m = chars_of(manager.as_str());
                let space = chars_of(" ");
                append_chars(&mut m, &space);
                append_chars(&mut m, &name);
                string_of(&m)
            }
        },
        None => {
            let mut m = chars_of(manager.as_str());
            let dev = chars_of(" dev");
            append_chars(&mut m, &dev);
            string_of(&m)
        },
    }
}

pub struct DetectedView {
    pub manager: Seq<char>,
    pub scripts: Seq<Seq<char>>,
    pub suggested_command: Seq<char>,
}

impl View for Detected {
    type V = DetectedView;

    open spec fn view(&self) -> DetectedView {
        DetectedView {
            manager: self.manager@,
            scripts: string_views(self.scripts@),
            suggested_command: self.suggested_command@,
        }
    }
}

/// The suggestion for a folder, given whether it is a folder, its lock
/// files and its script names.
pub open spec fn detection_from(
    cwd: Seq<char>,
    is_dir: bool,
    files: LockFiles,
    scripts: Seq<Seq<char>>,
) -> Result<DetectedView, Seq<char>> {
    if !is_dir {
        Err(msg_not_folder(cwd))
    } else {
        let manager = manager_of(files);
        Ok(
            DetectedView {
                manager: manager,
                scripts: scripts,
                suggested_command: suggestion(manager, preferred_script(scripts)),
            },
        )
    }
}

/// The suggestion for a folder, from what was found out about it.
pub open spec fn detection(cwd: Seq<char>, is_dir: bool, files: LockFiles, package_json: Option<
    Seq<char>,
>) -> Result<DetectedView, Seq<char>> {
    detection_from(cwd, is_dir, files, scripts_of(package_json))
}

/// The lock files decide the manager of a folder: a pnpm lock means pnpm;
/// without it, either bun lock file (`bun.lockb` or `bun.lock`) means bun;
/// then `yarn.lock` means yarn; then `package-lock.json` or a bare
/// `package.json` means npm; with none of them there is no manager and no
/// suggested command.
pub proof fn law_manager_by_lock_files(cwd: Seq<char>, f: LockFiles, scripts: Seq<Seq<char>>)
    ensures
        detection_from(cwd, true, f, scripts) matches Ok(d) && {
            &&& f.pnpm_lock ==> d.manager == "pnpm"@
            &&& !f.pnpm_lock && (f.bun_lockb || f.bun_lock) ==> d.manager == "bun"@
            &&& !f.pnpm_lock && !f.bun_lockb && !f.bun_lock && f.yarn_lock ==> d.manager
                == "yarn"@
            &&& !f.pnpm_lock && !f.bun_lockb && !f.bun_lock && !f.yarn_lock && (f.package_lock
                || f.package_json) ==> d.manager == "npm"@
            &&& !f.pnpm_lock && !f.bun_lockb && !f.bun_lock && !f.yarn_lock && !f.package_lock
                && !f.package_json ==> d.manager == ""@
            &&& d.scripts == scripts
        },
{
}

/// A `dev` script is what is suggested when there is one: `npm run dev` and
/// `bun run dev` for npm and bun, `<manager> dev` for pnpm and yarn.
pub proof fn law_dev_script_suggested(cwd: Seq<char>, f: LockFiles, scripts: Seq<Seq<char>>)
    requires
        scripts.contains("dev"@),
    ensures
        detection_from(cwd, true, f, scripts) matches Ok(d) && {
            &&& d.manager == "npm"@ ==> d.suggested_command == "npm run dev"@
            &&& d.manager == "bun"@ ==> d.suggested_command == "bun run dev"@
            &&& d.manager == "pnpm"@ ==> d.suggested_command == "pnpm dev"@
            &&& d.manager == "yarn"@ ==> d.suggested_command == "yarn dev"@
        },
{
    reveal_strlit("npm");
    reveal_strlit("bun");
    reveal_strlit("pnpm");
    reveal_strlit("yarn");
    reveal_strlit("dev");
    reveal_strlit(" ");
    reveal_strlit("pnpm dev");
    reveal_strlit("yarn dev");
    reveal_strlit("npm run ");
    reveal_strlit("bun run ");
    reveal_strlit("npm run dev");
    reveal_strlit("bun run dev");
    assert("pnpm"@ + " "@ + "dev"@ =~= "pnpm dev"@);
    assert("yarn"@ + " "@ + "dev"@ =~= "yarn dev"@);
    assert("npm run "@ + "dev"@ =~= "npm run dev"@);
    assert("bun run "@ + "dev"@ =~= "bun run dev"@);
    assert(preferred_script(scripts) == Some("dev"@));
    assert("bun"@ != "npm"@) by {
        assert("bun"@[0] != "npm"@[0]);
    }
}

pub open spec fn detected_result_view(r: Result<Detected, String>) -> Result<DetectedView, Seq<char>> {
    match r {
        Ok(d) => Ok(d@),
        Err(e) => Err(e@),
    }
}

/// The suggestion for the folder `cwd` given its script names.
pub fn detect_with_scripts(cwd: String, is_dir: bool, files: LockFiles, scripts: Vec<String>) -> (r:
    Result<Detected, String>)
    ensures
        detected_result_view(r) == detection_from(cwd@, is_dir, files, string_views(scripts@)),
{
    if !is_dir {
        let c = chars_of(cwd.as_str());
        return Err(prefixed("폴더가 아닙니다: ", &c));
    }
    let manager = pick_manager(files);
    let script = pick_script(&scripts);
    let suggested_command = suggest_command(&manager, &script);
    Ok(Detected { manager, scripts, suggested_command })
}

/// Detect the package manager and the run command of the folder `cwd`.
pub fn detect_command(cwd: String, probe: DirProbe) -> (r: Result<Detected, String>)
    ensures
        detected_result_view(r) == detection(
            cwd@,
            probe.is_dir,
            probe.files,
            match probe.package_json {
                Some(t) => Some(t@),
                None => None,
            },
        ),
{
    let scripts = if probe.is_dir {
        match &probe.package_json {
            Some(t) => read_scripts(Some(t.as_str())),
            None => read_scripts(None),
        }
    } else {
        Vec::new()
    };
    detect_with_scripts(cwd, probe.is_dir, probe.files, scripts)
}

} // verus!
