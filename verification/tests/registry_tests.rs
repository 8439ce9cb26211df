use portly::registry::{
    clean_project, clean_project_with, get_project, remove_project, upsert_project, Project,
    Registry,
};

fn project(id: &str, name: &str, cwd: &str, command: &str) -> Project {
    Project {
        id: id.to_string(),
        name: name.to_string(),
        cwd: cwd.to_string(),
        command: command.to_string(),
    }
}

fn ids(r: &Registry) -> Vec<String> {
    r.projects.iter().map(|p| p.id.clone()).collect()
}

#[test]
fn saved_project_is_found() {
    let mut reg = Registry::default();
    upsert_project(&mut reg, project("a", "api", "/srv/a", "pnpm dev"));
    let p = get_project(&reg, "a").expect("saved project");
    assert_eq!(p.name, "api");
    assert_eq!(p.cwd, "/srv/a");
    assert_eq!(p.command, "pnpm dev");
    assert!(get_project(&reg, "b").is_none());
}

#[test]
fn save_replaces_same_id_in_place() {
    let mut reg = Registry::default();
    upsert_project(&mut reg, project("a", "one", "/a", "x"));
    upsert_project(&mut reg, project("b", "two", "/b", "y"));
    upsert_project(&mut reg, project("a", "uno", "/a2", "z"));
    assert_eq!(ids(&reg), vec!["a", "b"]);
    assert_eq!(get_project(&reg, "a").unwrap().name, "uno");
    assert_eq!(get_project(&reg, "b").unwrap().name, "two");
}

#[test]
fn delete_removes_every_copy_and_keeps_order() {
    let mut reg = Registry {
        projects: vec![
            project("a", "1", "/1", "c"),
            project("b", "2", "/2", "c"),
            project("a", "3", "/3", "c"),
            project("c", "4", "/4", "c"),
        ],
    };
    assert_eq!(get_project(&reg, "a").unwrap().name, "1");
    remove_project(&mut reg, "a");
    assert_eq!(ids(&reg), vec!["b", "c"]);
    assert!(get_project(&reg, "a").is_none());
    remove_project(&mut reg, "a");
    assert_eq!(ids(&reg), vec!["b", "c"]);
    remove_project(&mut reg, "zzz");
    assert_eq!(ids(&reg), vec!["b", "c"]);
}

#[test]
fn delete_after_save_is_delete() {
    let mut a = Registry { projects: vec![project("x", "1", "/1", "c")] };
    let mut b = Registry { projects: vec![project("x", "1", "/1", "c")] };
    upsert_project(&mut a, project("y", "2", "/2", "d"));
    remove_project(&mut a, "y");
    remove_project(&mut b, "y");
    assert_eq!(ids(&a), ids(&b));
}

#[test]
fn clean_project_trims_and_accepts() {
    let r = clean_project_with(project("id1", "  api ", " /srv/api\n", "\tpnpm dev "), true);
    let p = r.expect("valid project");
    assert_eq!(p.id, "id1");
    assert_eq!(p.name, "api");
    assert_eq!(p.cwd, "/srv/api");
    assert_eq!(p.command, "pnpm dev");
}

#[test]
fn clean_project_errors_in_order() {
    let e = clean_project_with(project("i", "  ", "rel", ""), true).unwrap_err();
    assert_eq!(e, "이름을 입력하세요.");
    let e = clean_project_with(project("i", "n", "rel", "  "), true).unwrap_err();
    assert_eq!(e, "실행 명령을 입력하세요.");
    let e = clean_project_with(project("i", "n", " rel/dir ", "c"), true).unwrap_err();
    assert_eq!(e, "절대경로만 지정할 수 있습니다: rel/dir");
    let e = clean_project_with(project("i", "n", " /nope ", "c"), false).unwrap_err();
    assert_eq!(e, "존재하는 폴더가 아닙니다: /nope");
}

#[test]
fn clean_project_asks_the_file_system() {
    let p = clean_project(project("i", "n", "/", "c")).expect("root is a folder");
    assert_eq!(p.cwd, "/");
    let e = clean_project(project("i", "n", "/no/such/folder/for/portly", "c")).unwrap_err();
    assert_eq!(e, "존재하는 폴더가 아닙니다: /no/such/folder/for/portly");
}
