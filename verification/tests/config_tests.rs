use portly::config::{
    home_dir, home_dir_or_error, install_status, sanitize_roots, sanitize_roots_with, Config,
};

fn strings(v: &[&str]) -> Vec<String> {
    v.iter().map(|s| s.to_string()).collect()
}

#[test]
fn install_status_locations() {
    let s = install_status("/Volumes/Portly/Portly.app/Contents/MacOS/portly".to_string());
    assert_eq!(s.location, "dmg");
    assert_eq!(s.exe_path, "/Volumes/Portly/Portly.app/Contents/MacOS/portly");
    let s = install_status(
        "/private/var/folders/xy/T/AppTranslocation/ABC/d/Portly.app/Contents/MacOS/portly"
            .to_string(),
    );
    assert_eq!(s.location, "translocated");
    let s = install_status("/Applications/Portly.app/Contents/MacOS/portly".to_string());
    assert_eq!(s.location, "ok");
    let s = install_status(String::new());
    assert_eq!(s.location, "ok");
    // "/Volumes" without the trailing slash is not a mounted image
    let s = install_status("/Volumes".to_string());
    assert_eq!(s.location, "ok");
}

#[test]
fn sanitize_keeps_first_of_each_and_trims() {
    let roots = strings(&["  /a/b/ ", "", "   ", "/a/b", "/c//", "/c"]);
    let dirs = vec![true; roots.len()];
    let out = sanitize_roots_with(roots, &dirs).unwrap();
    assert_eq!(out, strings(&["/a/b", "/c"]));
}

#[test]
fn sanitize_refuses_the_file_system_root() {
    let e = sanitize_roots_with(strings(&["/"]), &vec![true]).unwrap_err();
    assert_eq!(e, "너무 넓은 경로는 지정할 수 없습니다(필터가 무의미해짐): /");
    let e = sanitize_roots_with(strings(&["/ok", " /// "]), &vec![true, true]).unwrap_err();
    assert_eq!(e, "너무 넓은 경로는 지정할 수 없습니다(필터가 무의미해짐):  /// ");
    let e = sanitize_roots(strings(&["/"])).unwrap_err();
    assert_eq!(e, "너무 넓은 경로는 지정할 수 없습니다(필터가 무의미해짐): /");
}

#[test]
fn sanitize_refuses_relative_wide_and_missing() {
    let e = sanitize_roots_with(strings(&["/ok", " rel "]), &vec![true, true]).unwrap_err();
    assert_eq!(e, "절대경로만 지정할 수 있습니다:  rel ");
    let e = sanitize_roots_with(strings(&["/Users/"]), &vec![true]).unwrap_err();
    assert_eq!(e, "너무 넓은 경로는 지정할 수 없습니다(필터가 무의미해짐): /Users/");
    for wide in ["/System", "/Library", "/private"] {
        let e = sanitize_roots_with(strings(&[wide]), &vec![true]).unwrap_err();
        assert!(e.ends_with(wide));
    }
    let e = sanitize_roots_with(strings(&["/x", "/gone"]), &vec![true, false]).unwrap_err();
    assert_eq!(e, "존재하는 폴더가 아닙니다: /gone");
}

#[test]
fn sanitize_stops_at_first_error() {
    let e = sanitize_roots_with(strings(&["rel", "/gone"]), &vec![true, false]).unwrap_err();
    assert_eq!(e, "절대경로만 지정할 수 있습니다: rel");
}

#[test]
fn sanitize_again_changes_nothing() {
    let roots = strings(&["/a/", " /b", "/a", "/c/d//"]);
    let out = sanitize_roots_with(roots, &vec![true; 4]).unwrap();
    let again = sanitize_roots_with(out.clone(), &vec![true; out.len()]).unwrap();
    assert_eq!(out, again);
}

#[test]
fn sanitize_roots_asks_the_file_system() {
    assert_eq!(sanitize_roots(strings(&["/usr/", "/usr"])).unwrap(), strings(&["/usr"]));
    let e = sanitize_roots(strings(&["/no/such/dir/for/portly"])).unwrap_err();
    assert_eq!(e, "존재하는 폴더가 아닙니다: /no/such/dir/for/portly");
}

#[test]
fn home_dir_reports_missing_home() {
    assert_eq!(home_dir_or_error(None).unwrap_err(), "홈 디렉토리를 찾을 수 없음");
    assert_eq!(home_dir_or_error(Some("/home/u".to_string())).unwrap(), "/home/u");
    match home_dir() {
        Ok(h) => assert!(!h.is_empty()),
        Err(e) => assert_eq!(e, "홈 디렉토리를 찾을 수 없음"),
    }
}

#[test]
fn default_config_has_no_roots() {
    assert!(Config::default().project_roots.is_empty());
}
