//! The registry of launchable projects (`~/.portly/registry.json`): each
//! project is a folder and a command, found again by its id.
use vstd::prelude::*;

use crate::host::path_is_dir;
use crate::text::{chars_of, owned, prefixed, string_of, trim, trim_chars};

verus! {

/// A registered project.
#[derive(Debug, Clone)]
pub struct Project {
    /// Chosen by the front end (a uuid or a slug).
    pub id: String,
    /// The name shown, such as `yolo-api`.
    pub name: String,
    /// The folder it runs in, an absolute path.
    pub cwd: String,
    /// The command it runs, such as `pnpm dev`.
    pub command: String,
}

pub struct ProjectView {
    pub id: Seq<char>,
    pub name: Seq<char>,
    pub cwd: Seq<char>,
    pub command: Seq<char>,
}

impl View for Project {
    type V = ProjectView;

    open spec fn view(&self) -> ProjectView {
        ProjectView { id: self.id@, name: self.name@, cwd: self.cwd@, command: self.command@ }
    }
}

/// All registered projects, in the order in which they were first saved.
#[derive(Debug, Clone)]
pub struct Registry {
    pub projects: Vec<Project>,
}

pub open spec fn project_views(v: Seq<Project>) -> Seq<ProjectView> {
    Seq::new(v.len(), |i: int| v[i]@)
}

impl View for Registry {
    type V = Seq<ProjectView>;

    open spec fn view(&self) -> Seq<ProjectView> {
        project_views(self.projects@)
    }
}

impl Default for Registry {
    fn default() -> (r: Registry)
        ensures
            r@ == Seq::<ProjectView>::empty(),
    {
        let r = Registry { projects: Vec::new() };
        assert(r@ =~= Seq::<ProjectView>::empty());
        r
    }
}

/// The first index at or after `i` of a project with the given id.
pub open spec fn index_of_id(ps: Seq<ProjectView>, id: Seq<char>, i: int) -> Option<int>
    decreases ps.len() - i,
{
    if i < 0 || i >= ps.len() {
        None
    } else if ps[i].id == id {
        Some(i)
    } else {
        index_of_id(ps, id, i + 1)
    }
}

/// The index of the first project with the given id.
pub open spec fn find_id(ps: Seq<ProjectView>, id: Seq<char>) -> Option<int> {
    index_of_id(ps, id, 0)
}

/// The first project with the given id.
pub open spec fn lookup(ps: Seq<ProjectView>, id: Seq<char>) -> Option<ProjectView> {
    match find_id(ps, id) {
        Some(k) => Some(ps[k]),
        None => None,
    }
}

/// Saving: the first project with the same id is replaced, or, when there
/// is none, the project is appended.
pub open spec fn upserted(ps: Seq<ProjectView>, p: ProjectView) -> Seq<ProjectView> {
    match find_id(ps, p.id) {
        Some(k) => ps.update(k, p),
        None => ps.push(p),
    }
}

/// Deleting: every project with the given id leaves; the others keep their order.
pub open spec fn removed(ps: Seq<ProjectView>, id: Seq<char>) -> Seq<ProjectView>
    decreases ps.len(),
{
    if ps.len() == 0 {
        seq![]
    } else {
        removed(ps.drop_last(), id) + if ps.last().id == id {
            seq![]
        } else {
            seq![ps.last()]
        }
    }
}

/// No two projects share an id.
pub open spec fn unique_ids(ps: Seq<ProjectView>) -> bool {
    forall|i: int, j: int| 0 <= i < j < ps.len() ==> #[trigger] ps[i].id != #[trigger] ps[j].id
}

pub proof fn lemma_index_of_id(ps: Seq<ProjectView>, id: Seq<char>, i: int)
    requires
        0 <= i <= ps.len(),
    ensures
        match index_of_id(ps, id, i) {
            Some(k) => i <= k < ps.len() && ps[k].id == id && forall|j: int|
                i <= j < k ==> (#[trigger] ps[j]).id != id,
            None => forall|j: int| i <= j < ps.len() ==> (#[trigger] ps[j]).id != id,
        },
    decreases ps.len() - i,
{
    if i < ps.len() && ps[i].id != id {
        lemma_index_of_id(ps, id, i + 1);
    }
}

/// `find_id` is the least index that carries the id.
pub proof fn lemma_find_id(ps: Seq<ProjectView>, id: Seq<char>)
    ensures
        match find_id(ps, id) {
            Some(k) => 0 <= k < ps.len() && ps[k].id == id && forall|j: int|
                0 <= j < k ==> (#[trigger] ps[j]).id != id,
            None => forall|j: int| 0 <= j < ps.len() ==> (#[trigger] ps[j]).id != id,
        },
{
    lemma_index_of_id(ps, id, 0);
}

/// Any index `k` that carries the id, with none before it, is `find_id`.
pub proof fn lemma_find_id_unique(ps: Seq<ProjectView>, id: Seq<char>, k: int)
    requires
        0 <= k < ps.len(),
        ps[k].id == id,
        forall|j: int| 0 <= j < k ==> (#[trigger] ps[j]).id != id,
    ensures
        find_id(ps, id) == Some(k),
{
    lemma_find_id(ps, id);
    match find_id(ps, id) {
        Some(m) => {
            if m < k {
                assert(ps[m].id != id);
            } else if m > k {
                assert(ps[k].id != id);
            }
        },
        None => {
            assert(ps[k].id != id);
        },
    }
}

/// No project with the given id is found.
pub proof fn lemma_find_none(ps: Seq<ProjectView>, id: Seq<char>)
    requires
        forall|j: int| 0 <= j < ps.len() ==> (#[trigger] ps[j]).id != id,
    ensures
        find_id(ps, id) is None,
{
    lemma_find_id(ps, id);
    match find_id(ps, id) {
        Some(m) => {
            assert(ps[m].id != id);
        },
        None => {},
    }
}

/// What `removed` keeps: exactly the projects without the id, in order.
pub proof fn lemma_removed(ps: Seq<ProjectView>, id: Seq<char>)
    ensures
        removed(ps, id).len() <= ps.len(),
        forall|j: int| 0 <= j < removed(ps, id).len() ==> (#[trigger] removed(ps, id)[j]).id != id,
        forall|j: int|
            0 <= j < removed(ps, id).len() ==> ps.contains(#[trigger] removed(ps, id)[j]),
        forall|j: int|
            0 <= j < ps.len() && ps[j].id != id ==> removed(ps, id).contains(#[trigger] ps[j]),
    decreases ps.len(),
{
    if ps.len() > 0 {
        let init = ps.drop_last();
        lemma_removed(init, id);
        let r = removed(ps, id);
        let ri = removed(init, id);
        assert forall|j: int| 0 <= j < r.len() implies ps.contains(#[trigger] r[j]) by {
            if j < ri.len() {
                assert(r[j] == ri[j]);
                let m = choose|m: int| 0 <= m < init.len() && init[m] == ri[j];
                assert(ps[m] == init[m]);
            } else {
                assert(r[j] == ps.last());
                assert(ps[ps.len() - 1] == ps.last());
            }
        }
        assert forall|j: int| 0 <= j < ps.len() && ps[j].id != id implies r.contains(
            #[trigger] ps[j],
        ) by {
            if j < init.len() {
                assert(init[j] == ps[j]);
                let m = choose|m: int| 0 <= m < ri.len() && ri[m] == init[j];
                assert(r[m] == ri[m]);
            } else {
                assert(r[r.len() - 1] == ps.last());
            }
        }
    }
}

/// The first project with id `other` is the same before and after removing
/// the projects with id `id`.
proof fn lemma_removed_lookup(ps: Seq<ProjectView>, id: Seq<char>, other: Seq<char>)
    requires
        other != id,
    ensures
        lookup(removed(ps, id), other) == lookup(ps, other),
    decreases ps.len(),
{
    if ps.len() > 0 {
        let init = ps.drop_last();
        lemma_removed_lookup(init, id, other);
        let r = removed(ps, id);
        let ri = removed(init, id);
        lemma_find_id(init, other);
        lemma_find_id(ri, other);
        lemma_find_id(ps, other);
        lemma_find_id(r, other);
        match find_id(init, other) {
            Some(k) => {
                let m = find_id(ri, other)->0;
                assert(r[m] == ri[m]);
                assert forall|j: int| 0 <= j < m implies (#[trigger] r[j]).id != other by {
                    assert(r[j] == ri[j]);
                }
                lemma_find_id_unique(r, other, m);
                assert forall|j: int| 0 <= j < k implies (#[trigger] ps[j]).id != other by {
                    assert(ps[j] == init[j]);
                }
                assert(ps[k] == init[k]);
                lemma_find_id_unique(ps, other, k);
            },
            None => {
                assert(find_id(ri, other) is None);
                if ps.last().id == other {
                    let n = ri.len() as int;
                    assert(r[n] == ps.last());
                    assert forall|j: int| 0 <= j < n implies (#[trigger] r[j]).id != other by {
                        assert(r[j] == ri[j]);
                    }
                    lemma_find_id_unique(r, other, n);
                    assert forall|j: int| 0 <= j < ps.len() - 1 implies (#[trigger] ps[j]).id
                        != other by {
                        assert(ps[j] == init[j]);
                    }
                    lemma_find_id_unique(ps, other, ps.len() - 1);
                } else {
                    assert forall|j: int| 0 <= j < r.len() implies (#[trigger] r[j]).id
                        != other by {
                        if j < ri.len() {
                            assert(r[j] == ri[j]);
                        }
                    }
                    lemma_find_none(r, other);
                    assert forall|j: int| 0 <= j < ps.len() implies (#[trigger] ps[j]).id
                        != other by {
                        if j < init.len() {
                            assert(ps[j] == init[j]);
                        }
                    }
                    lemma_find_none(ps, other);
                }
            },
        }
    }
}

/// Once saved, a project is what its id finds.
pub proof fn law_saved_project_is_found(ps: Seq<ProjectView>, p: ProjectView)
    ensures
        lookup(upserted(ps, p), p.id) == Some(p),
{
    let r = upserted(ps, p);
    lemma_find_id(ps, p.id);
    match find_id(ps, p.id) {
        Some(k) => {
            assert forall|j: int| 0 <= j < k implies (#[trigger] r[j]).id != p.id by {
                assert(r[j] == ps[j]);
            }
            lemma_find_id_unique(r, p.id, k);
        },
        None => {
            let n = ps.len() as int;
            assert forall|j: int| 0 <= j < n implies (#[trigger] r[j]).id != p.id by {
                assert(r[j] == ps[j]);
            }
            lemma_find_id_unique(r, p.id, n);
        },
    }
}

/// Saving a project leaves what every other id finds unchanged.
pub proof fn law_save_keeps_other_projects(
    ps: Seq<ProjectView>,
    p: ProjectView,
    other: Seq<char>,
)
    requires
        other != p.id,
    ensures
        lookup(upserted(ps, p), other) == lookup(ps, other),
{
    let r = upserted(ps, p);
    lemma_find_id(ps, other);
    lemma_find_id(ps, p.id);
    match find_id(ps, other) {
        Some(k) => {
            assert forall|j: int| 0 <= j < k implies (#[trigger] r[j]).id != other by {
                assert(r[j].id == ps[j].id || r[j] == p);
            }
            assert(r[k] == ps[k]) by {
                assert(r[k].id == ps[k].id || r[k] == p);
            }
            lemma_find_id_unique(r, other, k);
        },
        None => {
            assert forall|j: int| 0 <= j < r.len() implies (#[trigger] r[j]).id != other by {
                if j < ps.len() {
                    assert(r[j] == ps[j] || r[j] == p);
                } else {
                    assert(r[j] == p);
                }
            }
            lemma_find_none(r, other);
        },
    }
}

/// Saving the same project twice is the same as saving it once.
pub proof fn law_save_is_idempotent(ps: Seq<ProjectView>, p: ProjectView)
    ensures
        upserted(upserted(ps, p), p) == upserted(ps, p),
{
    let r = upserted(ps, p);
    lemma_find_id(ps, p.id);
    law_saved_project_is_found(ps, p);
    lemma_find_id(r, p.id);
    let k = find_id(r, p.id)->0;
    assert(r[k] == p);
    assert(r.update(k, p) =~= r);
}

/// Saving adds a project exactly when none had its id, and otherwise keeps
/// the count.
pub proof fn law_save_count(ps: Seq<ProjectView>, p: ProjectView)
    ensures
        lookup(ps, p.id) is None ==> upserted(ps, p).len() == ps.len() + 1,
        lookup(ps, p.id) is Some ==> upserted(ps, p).len() == ps.len(),
{
    lemma_find_id(ps, p.id);
}

/// Saving keeps ids unique.
pub proof fn law_save_keeps_ids_unique(ps: Seq<ProjectView>, p: ProjectView)
    requires
        unique_ids(ps),
    ensures
        unique_ids(upserted(ps, p)),
{
    let r = upserted(ps, p);
    lemma_find_id(ps, p.id);
    match find_id(ps, p.id) {
        Some(k) => {
            assert forall|i: int, j: int| 0 <= i < j < r.len() implies #[trigger] r[i].id
                != #[trigger] r[j].id by {
                if i == k {
                    assert(ps[k].id == p.id);
                    assert(ps[i].id != ps[j].id);
                } else if j == k {
                    assert(ps[i].id != ps[j].id);
                } else {
                    assert(ps[i].id != ps[j].id);
                }
            }
        },
        None => {
            assert forall|i: int, j: int| 0 <= i < j < r.len() implies #[trigger] r[i].id
                != #[trigger] r[j].id by {
                if j == ps.len() {
                    assert(r[i] == ps[i]);
                } else {
                    assert(ps[i].id != ps[j].id);
                }
            }
        },
    }
}

/// After a delete, the id finds nothing.
pub proof fn law_deleted_project_is_gone(ps: Seq<ProjectView>, id: Seq<char>)
    ensures
        lookup(removed(ps, id), id) is None,
{
    lemma_removed(ps, id);
    lemma_find_none(removed(ps, id), id);
}

/// A delete leaves what every other id finds unchanged.
pub proof fn law_delete_keeps_other_projects(
    ps: Seq<ProjectView>,
    id: Seq<char>,
    other: Seq<char>,
)
    requires
        other != id,
    ensures
        lookup(removed(ps, id), other) == lookup(ps, other),
{
    lemma_removed_lookup(ps, id, other);
}

/// Deleting twice is deleting once.
pub proof fn law_delete_is_idempotent(ps: Seq<ProjectView>, id: Seq<char>)
    ensures
        removed(removed(ps, id), id) == removed(ps, id),
    decreases ps.len(),
{
    if ps.len() > 0 {
        law_delete_is_idempotent(ps.drop_last(), id);
        let ri = removed(ps.drop_last(), id);
        if ps.last().id != id {
            let r = removed(ps, id);
            assert(r.drop_last() =~= ri);
        } else {
            assert(removed(ps, id) =~= ri);
        }
    } else {
        assert(removed(removed(ps, id), id) =~= seq![]);
    }
}

/// Deleting a project right after saving it leaves the registry as
/// deleting it alone would have.
pub proof fn law_delete_undoes_save(ps: Seq<ProjectView>, p: ProjectView)
    ensures
        removed(upserted(ps, p), p.id) == removed(ps, p.id),
{
    lemma_find_id(ps, p.id);
    match find_id(ps, p.id) {
        Some(k) => {
            lemma_removed_update_same_id(ps, k, p);
        },
        None => {
            let r = ps.push(p);
            assert(r.drop_last() =~= ps);
            assert(removed(r, p.id) =~= removed(ps, p.id));
        },
    }
}

/// Replacing a project by one with the same id does not change what a
/// delete of that id leaves.
proof fn lemma_removed_update_same_id(ps: Seq<ProjectView>, k: int, p: ProjectView)
    requires
        0 <= k < ps.len(),
        ps[k].id == p.id,
    ensures
        removed(ps.update(k, p), p.id) == removed(ps, p.id),
    decreases ps.len(),
{
    let u = ps.update(k, p);
    if k == ps.len() - 1 {
        assert(u.drop_last() =~= ps.drop_last());
        assert(removed(u, p.id) =~= removed(u.drop_last(), p.id));
        assert(removed(ps, p.id) =~= removed(ps.drop_last(), p.id));
    } else {
        lemma_removed_update_same_id(ps.drop_last(), k, p);
        assert(u.drop_last() =~= ps.drop_last().update(k, p));
        assert(u.last() == ps.last());
    }
}

fn copy_project(p: &Project) -> (r: Project)
    ensures
        r@ == p@,
{
    Project { id: p.id.clone(), name: p.name.clone(), cwd: p.cwd.clone(), command: p.command.clone() }
}

fn find_index(registry: &Registry, id: &String) -> (r: Option<usize>)
    ensures
        match r {
            Some(k) => k < registry.projects.len() && find_id(registry@, id@) == Some(k as int),
            None => find_id(registry@, id@) is None,
        },
{
    let ghost ps = registry@;
    let mut i: usize = 0;
    while i < registry.projects.len()
        invariant
            ps == registry@,
            i <= registry.projects.len(),
            forall|j: int| 0 <= j < i ==> (#[trigger] ps[j]).id != id@,
        decreases registry.projects.len() - i,
    {
        assert(ps[i as int] == registry.projects[i as int]@);
        if registry.projects[i].id == *id {
            proof {
                lemma_find_id_unique(ps, id@, i as int);
            }
            return Some(i);
        }
        i = i + 1;
    }
    proof {
        lemma_find_none(ps, id@);
    }
    None
}

/// The registered project with the given id: the first one, should the
/// registry hold more than one.
pub fn get_project(registry: &Registry, id: &str) -> (r: Option<Project>)
    ensures
        match r {
            Some(p) => lookup(registry@, id@) == Some(p@),
            None => lookup(registry@, id@) is None,
        },
{
    let key = owned(id);
    match find_index(registry, &key) {
        Some(k) => {
            assert(registry@[k as int] == registry.projects[k as int]@);
            Some(copy_project(&registry.projects[k]))
        },
        None => None,
    }
}

/// Save a project: it replaces the first project with its id, or is
/// appended when there is none.
pub fn upsert_project(registry: &mut Registry, project: Project)
    ensures
        final(registry)@ == upserted(old(registry)@, project@),
{
    let ghost p = project@;
    match find_index(registry, &project.id) {
        Some(k) => {
            registry.projects.set(k, project);
            assert(registry@ =~= old(registry)@.update(k as int, p));
        },
        None => {
            registry.projects.push(project);
            assert(registry@ =~= old(registry)@.push(p));
        },
    }
}

/// Delete every project with the given id.
pub fn remove_project(registry: &mut Registry, id: &str)
    ensures
        final(registry)@ == removed(old(registry)@, id@),
{
    let key = owned(id);
    let ghost ps = registry@;
    let mut kept: Vec<Project> = Vec::new();
    let mut i: usize = 0;
    while i < registry.projects.len()
        invariant
            ps == registry@,
            key@ == id@,
            i <= registry.projects.len(),
            project_views(kept@) == removed(ps.take(i as int), id@),
        decreases registry.projects.len() - i,
    {
        let ghost before = project_views(kept@);
        assert(ps.take(i + 1).drop_last() =~= ps.take(i as int));
        assert(ps.take(i + 1).last() == registry.projects[i as int]@);
        if registry.projects[i].id != key {
            kept.push(copy_project(&registry.projects[i]));
            assert(project_views(kept@) =~= before + seq![ps[i as int]]);
        } else {
            assert(before + seq![] =~= before);
        }
        i = i + 1;
    }
    assert(ps.take(i as int) =~= ps);
    registry.projects = kept;
}

/// Whether a path is absolute in the Unix sense: it starts with `'/'`.
pub open spec fn is_absolute(p: Seq<char>) -> bool {
    p.len() > 0 && p[0] == '/'
}

pub fn is_absolute_chars(p: &Vec<char>) -> (b: bool)
    ensures
        b == is_absolute(p@),
{
    p.len() > 0 && p[0] == '/'
}

pub open spec fn msg_name_missing() -> Seq<char> {
    "이름을 입력하세요."@
}

pub open spec fn msg_command_missing() -> Seq<char> {
    "실행 명령을 입력하세요."@
}

pub open spec fn msg_not_absolute(path: Seq<char>) -> Seq<char> {
    "절대경로만 지정할 수 있습니다: "@ + path
}

pub open spec fn msg_not_a_folder(path: Seq<char>) -> Seq<char> {
    "존재하는 폴더가 아닙니다: "@ + path
}

/// What saving makes of a project: name, folder and command trimmed; the
/// name and the command must not be empty, the folder must be an absolute
/// path and, as `cwd_is_dir` reports, an existing folder.
pub open spec fn cleaned(p: ProjectView, cwd_is_dir: bool) -> Result<ProjectView, Seq<char>> {
    let name = trim(p.name);
    let cwd = trim(p.cwd);
    let command = trim(p.command);
    if name.len() == 0 {
        Err(msg_name_missing())
    } else if command.len() == 0 {
        Err(msg_command_missing())
    } else if !is_absolute(cwd) {
        Err(msg_not_absolute(cwd))
    } else if !cwd_is_dir {
        Err(msg_not_a_folder(cwd))
    } else {
        Ok(ProjectView { id: p.id, name: name, cwd: cwd, command: command })
    }
}

/// The view of a checked project or of the message that refused it.
pub open spec fn result_view(r: Result<Project, String>) -> Result<ProjectView, Seq<char>> {
    match r {
        Ok(p) => Ok(p@),
        Err(e) => Err(e@),
    }
}

/// Check and trim a project before it is saved, given whether its trimmed
/// folder is an existing directory.
pub fn clean_project_with(project: Project, cwd_is_dir: bool) -> (r: Result<Project, String>)
    ensures
        result_view(r) == cleaned(project@, cwd_is_dir),
{
    let name = trim_chars(&chars_of(project.name.as_str()));
    let cwd = trim_chars(&chars_of(project.cwd.as_str()));
    let command = trim_chars(&chars_of(project.command.as_str()));
    if name.len() == 0 {
        return Err(owned("이름을 입력하세요."));
    }
    if command.len() == 0 {
        return Err(owned("실행 명령을 입력하세요."));
    }
    if !is_absolute_chars(&cwd) {
        return Err(prefixed("절대경로만 지정할 수 있습니다: ", &cwd));
    }
    if !cwd_is_dir {
        return Err(prefixed("존재하는 폴더가 아닙니다: ", &cwd));
    }
    Ok(Project { id: project.id, name: string_of(&name), cwd: string_of(&cwd), command: string_of(&command) })
}

/// Check and trim a project before it is saved. Whether its folder exists
/// is asked of the file system, and only once the other checks have passed;
/// the result is what `cleaned` gives for that answer.
pub fn clean_project(project: Project) -> (r: Result<Project, String>)
    ensures
        exists|d: bool| #[trigger] cleaned(project@, d) == result_view(r),
{
    let name = trim_chars(&chars_of(project.name.as_str()));
    let cwd = trim_chars(&chars_of(project.cwd.as_str()));
    let command = trim_chars(&chars_of(project.command.as_str()));
    let d = if name.len() > 0 && command.len() > 0 && is_absolute_chars(&cwd) {
        path_is_dir(string_of(&cwd).as_str())
    } else {
        false
    };
    clean_project_with(project, d)
}

} // verus!
