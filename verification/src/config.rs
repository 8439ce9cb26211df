//! Settings (`~/.portly/config.json`): the folders whose processes count as
//! the user's own, and what the app can tell about where it runs from.
use vstd::prelude::*;

use crate::host::{home_dir_text, path_is_dir};
use crate::registry::{is_absolute, is_absolute_chars, msg_not_a_folder, msg_not_absolute};
use crate::text::{
    in_class, is_space, lemma_run_end, lemma_run_start, run_end, run_start, trim_start,
    chars_of, contains, contains_chars, owned, prefixed, starts_with, starts_with_chars, string_of,
    string_views,
    trim, trim_chars, trim_end_class, trim_end_class_chars, CharClass,
};

verus! {

/// The settings.
#[derive(Debug, Clone)]
pub struct Config {
    /// Folders whose processes are "my projects". Empty means everything
    /// under the home folder.
    pub project_roots: Vec<String>,
}

impl Default for Config {
    fn default() -> (r: Config)
        ensures
            string_views(r.project_roots@) == Seq::<Seq<char>>::empty(),
    {
        let r = Config { project_roots: Vec::new() };
        assert(string_views(r.project_roots@) =~= Seq::<Seq<char>>::empty());
        r
    }
}

/// Where the running app was started from.
#[derive(Debug, Clone)]
pub struct InstallStatus {
    pub exe_path: String,
    /// `ok`, `dmg` or `translocated`; anything but `ok` makes the front end
    /// ask the user to move the app.
    pub location: String,
}

/// `dmg` for an app run straight from a mounted disk image (`/Volumes/...`),
/// `translocated` for one that Gatekeeper moved to a random read-only path
/// (`.../AppTranslocation/...`), `ok` otherwise.
pub open spec fn location_of(exe: Seq<char>) -> Seq<char> {
    if starts_with(exe, "/Volumes/"@) {
        "dmg"@
    } else if contains(exe, "/AppTranslocation/"@) {
        "translocated"@
    } else {
        "ok"@
    }
}

/// The install status of an app whose executable has the given path.
pub fn install_status(exe_path: String) -> (r: InstallStatus)
    ensures
        r.exe_path@ == exe_path@,
        r.location@ == location_of(exe_path@),
{
    let exe = chars_of(exe_path.as_str());
    let volumes = chars_of("/Volumes/");
    let translocation = chars_of("/AppTranslocation/");
    let location = if starts_with_chars(&exe, &volumes) {
        owned("dmg")
    } else if contains_chars(&exe, &translocation) {
        owned("translocated")
    } else {
        owned("ok")
    };
    InstallStatus { exe_path, location }
}

pub open spec fn msg_no_home() -> Seq<char> {
    "홈 디렉토리를 찾을 수 없음"@
}

/// The home folder as the environment reported it (`found`), or the error
/// that says there is none.
pub fn home_dir_or_error(found: Option<String>) -> (r: Result<String, String>)
    ensures
        match found {
            Some(h) => r == Ok::<String, String>(h),
            None => r matches Err(e) && e@ == msg_no_home(),
        },
{
    match found {
        Some(h) => Ok(h),
        None => Err(owned("홈 디렉토리를 찾을 수 없음")),
    }
}

/// The current user's home folder, which the front end uses to tell the
/// user's own processes from the rest.
pub fn home_dir() -> (r: Result<String, String>)
    ensures
        r matches Err(e) ==> e@ == msg_no_home(),
{
    home_dir_or_error(home_dir_text())
}

/// Paths so wide that using them as a project root would make the filter
/// meaningless.
pub open spec fn forbidden_root(p: Seq<char>) -> bool {
    ||| p == "/"@
    ||| p == "/Users"@
    ||| p == "/System"@
    ||| p == "/Library"@
    ||| p == "/private"@
}

/// A root as it is compared and stored: trimmed, then without trailing `'/'`.
pub open spec fn root_key(raw: Seq<char>) -> Seq<char> {
    trim_end_class(trim(raw), CharClass::Slash)
}

pub open spec fn msg_too_broad(raw: Seq<char>) -> Seq<char> {
    "너무 넓은 경로는 지정할 수 없습니다(필터가 무의미해짐): "@ + raw
}

/// The checked list of project roots, given for each root whether it is an
/// existing directory (`dirs[i]` for `roots[i]`). Roots are taken in order:
/// a blank one is skipped; one made only of `'/'` (the file-system root)
/// or one of the other forbidden wide paths, a relative one, or one that is
/// not a directory stops the whole list with an error that quotes it as
/// given; a root seen before is dropped.
pub open spec fn sanitized(roots: Seq<Seq<char>>, dirs: Seq<bool>) -> Result<
    Seq<Seq<char>>,
    Seq<char>,
>
    decreases roots.len(),
{
    if roots.len() == 0 {
        Ok(seq![])
    } else {
        match sanitized(roots.drop_last(), dirs) {
            Err(e) => Err(e),
            Ok(out) => {
                let raw = roots.last();
                let key = root_key(raw);
                if trim(raw).len() == 0 {
                    Ok(out)
                } else if key.len() == 0 {
                    Err(msg_too_broad(raw))
                } else if !is_absolute(key) {
                    Err(msg_not_absolute(raw))
                } else if forbidden_root(key) {
                    Err(msg_too_broad(raw))
                } else if !dirs[roots.len() - 1] {
                    Err(msg_not_a_folder(raw))
                } else if out.contains(key) {
                    Ok(out)
                } else {
                    Ok(out.push(key))
                }
            },
        }
    }
}

/// Once a prefix of the roots is refused, the whole list is refused with
/// the same message.
proof fn lemma_sanitized_error_stays(roots: Seq<Seq<char>>, dirs: Seq<bool>, k: int)
    requires
        0 <= k <= roots.len(),
        sanitized(roots.take(k), dirs) is Err,
    ensures
        sanitized(roots, dirs) == sanitized(roots.take(k), dirs),
    decreases roots.len(),
{
    if k < roots.len() {
        assert(roots.drop_last().take(k) =~= roots.take(k));
        lemma_sanitized_error_stays(roots.drop_last(), dirs, k);
    } else {
        assert(roots.take(k) =~= roots);
    }
}

/// A non-empty key neither starts with white space nor ends with `'/'`.
proof fn lemma_root_key_ends(raw: Seq<char>)
    ensures
        root_key(raw).len() > 0 ==> !is_space(root_key(raw)[0]) && root_key(raw).last() != '/',
{
    let a = run_end(raw, CharClass::Space, 0);
    lemma_run_end(raw, CharClass::Space, 0);
    let ts = trim_start(raw);
    let b = run_start(ts, CharClass::Space, ts.len() as int);
    lemma_run_start(ts, CharClass::Space, ts.len() as int);
    let t = trim(raw);
    assert(t == ts.take(b));
    let c = run_start(t, CharClass::Slash, t.len() as int);
    lemma_run_start(t, CharClass::Slash, t.len() as int);
    let key = root_key(raw);
    assert(key == t.take(c));
    if key.len() > 0 {
        assert(key[0] == ts[0]);
        assert(ts[0] == raw[a]);
        assert(!in_class(raw[a], CharClass::Space));
        assert(key.last() == t[c - 1]);
    }
}

/// A key that does not end in white space is its own key.
proof fn lemma_root_key_fixed(k: Seq<char>)
    requires
        k.len() > 0,
        !is_space(k[0]),
        !is_space(k.last()),
        k.last() != '/',
    ensures
        root_key(k) == k,
{
    assert(run_end(k, CharClass::Space, 0) == 0);
    assert(trim_start(k) =~= k);
    assert(run_start(k, CharClass::Space, k.len() as int) == k.len());
    assert(trim(k) =~= k);
    assert(run_start(k, CharClass::Slash, k.len() as int) == k.len());
    assert(trim_end_class(k, CharClass::Slash) =~= k);
}

/// A non-empty key comes from a non-blank root.
proof fn lemma_key_from_nonblank(raw: Seq<char>)
    ensures
        root_key(raw).len() <= trim(raw).len(),
{
    lemma_run_start(trim(raw), CharClass::Slash, trim(raw).len() as int);
}

/// Only the five wide paths themselves are refused as too wide: a single
/// root whose key is any other absolute path, such as a folder below
/// `/Users`, is kept as its key when it is a folder.
pub proof fn law_other_roots_kept(raw: Seq<char>)
    requires
        is_absolute(root_key(raw)),
        root_key(raw) != "/"@,
        root_key(raw) != "/Users"@,
        root_key(raw) != "/System"@,
        root_key(raw) != "/Library"@,
        root_key(raw) != "/private"@,
    ensures
        sanitized(seq![raw], seq![true]) == Ok::<Seq<Seq<char>>, Seq<char>>(seq![root_key(raw)]),
{
    lemma_key_from_nonblank(raw);
    let rs = seq![raw];
    assert(rs.drop_last() =~= Seq::<Seq<char>>::empty());
    assert(rs.last() == raw);
    assert(sanitized(rs.drop_last(), seq![true]) == Ok::<Seq<Seq<char>>, Seq<char>>(seq![]));
    assert(!forbidden_root(root_key(raw)));
    assert(seq![true][0]);
    assert(!Seq::<Seq<char>>::empty().contains(root_key(raw)));
    assert(Seq::<Seq<char>>::empty().push(root_key(raw)) =~= seq![root_key(raw)]);
}

/// The root folder and the four wide paths are refused as too wide, whatever
/// the file system says.
pub proof fn law_wide_roots_refused(raw: Seq<char>, d: bool)
    requires
        trim(raw).len() > 0,
        root_key(raw).len() == 0 || root_key(raw) == "/Users"@ || root_key(raw) == "/System"@
            || root_key(raw) == "/Library"@ || root_key(raw) == "/private"@,
    ensures
        sanitized(seq![raw], seq![d]) == Err::<Seq<Seq<char>>, Seq<char>>(msg_too_broad(raw)),
{
    reveal_strlit("/Users");
    reveal_strlit("/System");
    reveal_strlit("/Library");
    reveal_strlit("/private");
    let rs = seq![raw];
    assert(rs.drop_last() =~= Seq::<Seq<char>>::empty());
    assert(rs.last() == raw);
    assert(sanitized(rs.drop_last(), seq![d]) == Ok::<Seq<Seq<char>>, Seq<char>>(seq![]));
    if root_key(raw).len() > 0 {
        assert(is_absolute(root_key(raw)));
        assert(forbidden_root(root_key(raw)));
    }
}

/// No root occurs twice.
pub open spec fn distinct_roots(out: Seq<Seq<char>>) -> bool {
    forall|i: int, j: int| 0 <= i < j < out.len() ==> #[trigger] out[i] != #[trigger] out[j]
}

/// What every accepted root is: the key of some given root that was
/// reported to be a folder, non-empty, absolute, not one of the forbidden
/// wide paths, without a trailing `'/'`; and no root is kept twice.
pub open spec fn accepted_roots(roots: Seq<Seq<char>>, dirs: Seq<bool>, out: Seq<Seq<char>>) -> bool {
    &&& distinct_roots(out)
    &&& forall|i: int|
        #![trigger out[i]]
        0 <= i < out.len() ==> {
            &&& out[i].len() > 0
            &&& is_absolute(out[i])
            &&& !forbidden_root(out[i])
            &&& !is_space(out[i][0])
            &&& out[i].last() != '/'
            &&& exists|j: int|
                0 <= j < roots.len() && #[trigger] root_key(roots[j]) == out[i] && dirs[j]
        }
}

/// Every root that the check accepts is a non-empty absolute folder path,
/// not one of the forbidden wide paths, without a trailing `'/'`, and the
/// key of a given root that was a folder; no root is kept twice.
pub proof fn law_accepted_roots_are_valid(roots: Seq<Seq<char>>, dirs: Seq<bool>)
    ensures
        sanitized(roots, dirs) matches Ok(out) ==> accepted_roots(roots, dirs, out),
    decreases roots.len(),
{
    if roots.len() > 0 {
        let init = roots.drop_last();
        law_accepted_roots_are_valid(init, dirs);
        match sanitized(init, dirs) {
            Err(_) => {},
            Ok(prev) => {
                let raw = roots.last();
                let key = root_key(raw);
                lemma_root_key_ends(raw);
                assert forall|i: int|
                    #![trigger prev[i]]
                    0 <= i < prev.len() implies exists|j: int|
                    0 <= j < roots.len() && #[trigger] root_key(roots[j]) == prev[i] && dirs[j] by {
                    let j = choose|j: int|
                        0 <= j < init.len() && #[trigger] root_key(init[j]) == prev[i] && dirs[j];
                    assert(roots[j] == init[j]);
                }
                if key.len() > 0 && is_absolute(key) && !forbidden_root(key)
                    && dirs[roots.len() - 1] && !prev.contains(key) {
                    let out = prev.push(key);
                    assert forall|i: int, j: int| 0 <= i < j < out.len() implies #[trigger] out[i]
                        != #[trigger] out[j] by {
                        if j == prev.len() {
                            assert(out[i] == prev[i]);
                        }
                    }
                    assert forall|i: int|
                        #![trigger out[i]]
                        0 <= i < out.len() implies exists|j: int|
                        0 <= j < roots.len() && #[trigger] root_key(roots[j]) == out[i] && dirs[j] by {
                        if i == prev.len() {
                            assert(root_key(roots[roots.len() - 1]) == out[i]);
                        } else {
                            assert(out[i] == prev[i]);
                        }
                    }
                }
            },
        }
    }
}

/// Every answer "is a folder".
pub open spec fn all_folders(n: nat) -> Seq<bool> {
    Seq::new(n, |i: int| true)
}

proof fn lemma_accepted_prefix(out: Seq<Seq<char>>, k: int)
    requires
        0 <= k <= out.len(),
        distinct_roots(out),
        forall|i: int|
            #![trigger out[i]]
            0 <= i < out.len() ==> root_key(out[i]) == out[i] && out[i].len() > 0 && is_absolute(
                out[i],
            ) && !forbidden_root(out[i]),
    ensures
        sanitized(out.take(k), all_folders(out.len())) == Ok::<Seq<Seq<char>>, Seq<char>>(
            out.take(k),
        ),
    decreases k,
{
    if k == 0 {
        assert(out.take(0) =~= seq![]);
    } else {
        lemma_accepted_prefix(out, k - 1);
        let t = out.take(k);
        assert(t.drop_last() =~= out.take(k - 1));
        assert(t.last() == out[k - 1]);
        assert(!out.take(k - 1).contains(out[k - 1])) by {
            if out.take(k - 1).contains(out[k - 1]) {
                let m = choose|m: int| 0 <= m < k - 1 && #[trigger] out.take(k - 1)[m] == out[k - 1];
                assert(out[m] == out[k - 1]);
            }
        }
        assert(out.take(k - 1).push(out[k - 1]) =~= t);
    }
}

/// Checking the roots again, while each kept root is still a folder,
/// changes nothing — for lists whose kept roots do not end in white space
/// (a root such as `"/a /"` is kept as `"/a "`, which trims further).
pub proof fn law_sanitize_is_idempotent(roots: Seq<Seq<char>>, dirs: Seq<bool>, out: Seq<Seq<char>>)
    requires
        sanitized(roots, dirs) == Ok::<Seq<Seq<char>>, Seq<char>>(out),
        forall|i: int| 0 <= i < out.len() ==> !is_space((#[trigger] out[i]).last()),
    ensures
        sanitized(out, all_folders(out.len())) == Ok::<Seq<Seq<char>>, Seq<char>>(out),
{
    law_accepted_roots_are_valid(roots, dirs);
    assert forall|i: int| #![trigger out[i]] 0 <= i < out.len() implies root_key(out[i]) == out[i] by {
        lemma_root_key_fixed(out[i]);
    }
    lemma_accepted_prefix(out, out.len() as int);
    assert(out.take(out.len() as int) =~= out);
}

pub open spec fn roots_result_view(r: Result<Vec<String>, String>) -> Result<
    Seq<Seq<char>>,
    Seq<char>,
> {
    match r {
        Ok(v) => Ok(string_views(v@)),
        Err(e) => Err(e@),
    }
}

/// The trimmed root and its key.
fn root_key_chars(raw: &String) -> (r: (Vec<char>, Vec<char>))
    ensures
        r.0@ == trim(raw@),
        r.1@ == root_key(raw@),
{
    let t = trim_chars(&chars_of(raw.as_str()));
    let k = trim_end_class_chars(&t, CharClass::Slash);
    (t, k)
}

fn is_forbidden_root(key: &Vec<char>) -> (b: bool)
    ensures
        b == forbidden_root(key@),
{
    let s = string_of(key);
    let a = owned("/");
    let b = owned("/Users");
    let c = owned("/System");
    let d = owned("/Library");
    let e = owned("/private");
    s == a || s == b || s == c || s == d || s == e
}

fn holds_string(v: &Vec<String>, s: &String) -> (b: bool)
    ensures
        b == string_views(v@).contains(s@),
{
    let mut i: usize = 0;
    while i < v.len()
        invariant
            i <= v.len(),
            forall|j: int| 0 <= j < i ==> v@[j]@ != s@,
        decreases v.len() - i,
    {
        if v[i] == *s {
            assert(string_views(v@)[i as int] == s@);
            return true;
        }
        i = i + 1;
    }
    assert forall|j: int| 0 <= j < string_views(v@).len() implies string_views(v@)[j] != s@ by {
        assert(string_views(v@)[j] == v@[j]@);
    }
    false
}

/// Check the project roots against the given directory answers
/// (`dirs[i]` for `roots[i]`).
pub fn sanitize_roots_with(roots: Vec<String>, dirs: &Vec<bool>) -> (r: Result<Vec<String>, String>)
    requires
        dirs.len() == roots.len(),
    ensures
        roots_result_view(r) == sanitized(string_views(roots@), dirs@),
{
    let ghost rs = string_views(roots@);
    let mut out: Vec<String> = Vec::new();
    assert(rs.take(0) =~= seq![]);
    assert(string_views(out@) =~= seq![]);
    let mut i: usize = 0;
    while i < roots.len()
        invariant
            rs == string_views(roots@),
            dirs.len() == roots.len(),
            i <= roots.len(),
            sanitized(rs.take(i as int), dirs@) == Ok::<Seq<Seq<char>>, Seq<char>>(
                string_views(out@),
            ),
        decreases roots.len() - i,
    {
        let ghost before = string_views(out@);
        assert(rs.take(i + 1).drop_last() =~= rs.take(i as int));
        assert(rs.take(i + 1).last() == roots@[i as int]@);
        let raw = &roots[i];
        let (trimmed, key) = root_key_chars(raw);
        let raw_chars = chars_of(raw.as_str());
        if trimmed.len() == 0 {
            i = i + 1;
            assert(string_views(out@) == before);
            continue;
        }
        if key.len() == 0 {
            let e = prefixed("너무 넓은 경로는 지정할 수 없습니다(필터가 무의미해짐): ", &raw_chars);
            proof {
                lemma_sanitized_error_stays(rs, dirs@, i + 1);
            }
            return Err(e);
        }
        if !is_absolute_chars(&key) {
            let e = prefixed("절대경로만 지정할 수 있습니다: ", &raw_chars);
            proof {
                lemma_sanitized_error_stays(rs, dirs@, i + 1);
            }
            return Err(e);
        }
        if is_forbidden_root(&key) {
            let e = prefixed("너무 넓은 경로는 지정할 수 없습니다(필터가 무의미해짐): ", &raw_chars);
            proof {
                lemma_sanitized_error_stays(rs, dirs@, i + 1);
            }
            return Err(e);
        }
        if !dirs[i] {
            let e = prefixed("존재하는 폴더가 아닙니다: ", &raw_chars);
            proof {
                lemma_sanitized_error_stays(rs, dirs@, i + 1);
            }
            return Err(e);
        }
        let k = string_of(&key);
        if !holds_string(&out, &k) {
            out.push(k);
            assert(string_views(out@) =~= before.push(key@));
        }
        i = i + 1;
    }
    assert(rs.take(i as int) =~= rs);
    Ok(out)
}

/// Check the project roots before they are saved: only existing absolute
/// folders, none of the too-wide ones, each once. Whether a root is a
/// folder is asked of the file system, in order, until the first root that
/// fails; the result is what `sanitized` gives for those answers.
pub fn sanitize_roots(roots: Vec<String>) -> (r: Result<Vec<String>, String>)
    ensures
        exists|dirs: Seq<bool>|
            dirs.len() == roots.len() && #[trigger] sanitized(string_views(roots@), dirs)
                == roots_result_view(r),
{
    let mut dirs: Vec<bool> = Vec::new();
    let mut failed = false;
    let mut i: usize = 0;
    while i < roots.len()
        invariant
            i <= roots.len(),
            dirs.len() == i,
        decreases roots.len() - i,
    {
        let mut d = false;
        if !failed {
            let (trimmed, key) = root_key_chars(&roots[i]);
            if trimmed.len() > 0 {
                if key.len() == 0 || !is_absolute_chars(&key) || is_forbidden_root(&key) {
                    failed = true;
                } else {
                    d = path_is_dir(string_of(&key).as_str());
                    failed = !d;
                }
            }
        }
        dirs.push(d);
        i = i + 1;
    }
    sanitize_roots_with(roots, &dirs)
}

} // verus!
