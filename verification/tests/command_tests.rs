use portly::detect::{detect_command, read_scripts, suggest_command, DirProbe, LockFiles};
use portly::kill::{kill_args, kill_error_message};
use portly::registry::Project;
use portly::spawn::{plan_launch, tail_lines};

fn no_files() -> LockFiles {
    LockFiles {
        pnpm_lock: false,
        bun_lockb: false,
        bun_lock: false,
        yarn_lock: false,
        package_lock: false,
        package_json: false,
    }
}

#[test]
fn kill_refuses_low_pids() {
    for pid in [1, 0, -1, i32::MIN] {
        let e = kill_args(pid, true).unwrap_err();
        assert_eq!(e, format!("종료 거부: PID {pid}는 유효하지 않거나 시스템 필수 프로세스입니다."));
    }
}

#[test]
fn kill_args_signal_and_separator() {
    assert_eq!(kill_args(2, false).unwrap(), vec!["-15", "--", "2"]);
    assert_eq!(kill_args(12345, true).unwrap(), vec!["-9", "--", "12345"]);
}

#[test]
fn kill_error_messages() {
    assert_eq!(
        kill_error_message(618, "kill: 618: Operation not permitted\n"),
        "권한 없음: PID 618는 시스템/타 사용자 프로세스라 종료할 수 없습니다."
    );
    assert_eq!(
        kill_error_message(99, "kill: 99: No such process"),
        "PID 99는 이미 종료되었습니다."
    );
    assert_eq!(kill_error_message(5, "  weird failure \n"), "종료 실패: weird failure");
    assert_eq!(kill_error_message(5, ""), "종료 실패: ");
}

#[test]
fn read_scripts_from_package_json() {
    let mut s = read_scripts(Some(r#"{"name":"x","scripts":{"dev":"vite","build":"tsc"}}"#));
    s.sort();
    assert_eq!(s, vec!["build", "dev"]);
    assert!(read_scripts(Some("not json")).is_empty());
    assert!(read_scripts(Some(r#"{"scripts":[1,2]}"#)).is_empty());
    assert!(read_scripts(Some(r#"{"name":"x"}"#)).is_empty());
    assert!(read_scripts(None).is_empty());
}

#[test]
fn detect_prefers_dev_then_start_then_serve() {
    let mut files = no_files();
    files.pnpm_lock = true;
    files.package_json = true;
    let probe = DirProbe {
        is_dir: true,
        files,
        package_json: Some(r#"{"scripts":{"build":"b","start":"s","dev":"d"}}"#.to_string()),
    };
    let d = detect_command("/p".to_string(), probe).unwrap();
    assert_eq!(d.manager, "pnpm");
    assert_eq!(d.suggested_command, "pnpm dev");
    let mut sorted = d.scripts.clone();
    sorted.sort();
    assert_eq!(sorted, vec!["build", "dev", "start"]);

    let probe = DirProbe {
        is_dir: true,
        files: LockFiles { package_lock: true, ..no_files() },
        package_json: Some(r#"{"scripts":{"serve":"s","start":"t"}}"#.to_string()),
    };
    assert_eq!(detect_command("/p".to_string(), probe).unwrap().suggested_command, "npm run start");

    let probe = DirProbe {
        is_dir: true,
        files: LockFiles { bun_lock: true, ..no_files() },
        package_json: Some(r#"{"scripts":{"serve":"s","lint":"l"}}"#.to_string()),
    };
    assert_eq!(detect_command("/p".to_string(), probe).unwrap().suggested_command, "bun run serve");
}

#[test]
fn detect_managers_by_lock_file() {
    let probe = DirProbe {
        is_dir: true,
        files: LockFiles { yarn_lock: true, package_lock: true, ..no_files() },
        package_json: None,
    };
    let d = detect_command("/p".to_string(), probe).unwrap();
    assert_eq!(d.manager, "yarn");
    assert_eq!(d.suggested_command, "yarn dev");
    assert!(d.scripts.is_empty());

    let probe = DirProbe {
        is_dir: true,
        files: LockFiles { package_json: true, ..no_files() },
        package_json: Some(r#"{"scripts":{"only":"x"}}"#.to_string()),
    };
    let d = detect_command("/p".to_string(), probe).unwrap();
    assert_eq!(d.manager, "npm");
    assert_eq!(d.suggested_command, "npm run only");

    let probe = DirProbe { is_dir: true, files: no_files(), package_json: None };
    let d = detect_command("/p".to_string(), probe).unwrap();
    assert_eq!(d.manager, "");
    assert_eq!(d.suggested_command, "");

    let probe = DirProbe {
        is_dir: true,
        files: LockFiles { bun_lockb: true, pnpm_lock: true, ..no_files() },
        package_json: None,
    };
    assert_eq!(detect_command("/p".to_string(), probe).unwrap().manager, "pnpm");
}

#[test]
fn detect_refuses_non_folder() {
    let probe = DirProbe { is_dir: false, files: no_files(), package_json: None };
    let e = detect_command("/nope".to_string(), probe).err().unwrap();
    assert_eq!(e, "폴더가 아닙니다: /nope");
}

#[test]
fn suggest_command_forms() {
    assert_eq!(suggest_command(&"yarn".to_string(), &Some("build".to_string())), "yarn build");
    assert_eq!(suggest_command(&"bun".to_string(), &None), "bun dev");
    assert_eq!(suggest_command(&String::new(), &Some("dev".to_string())), "");
}

#[test]
fn plan_launch_cases() {
    let p = Project {
        id: "api".to_string(),
        name: "api".to_string(),
        cwd: "/srv/api".to_string(),
        command: "pnpm dev".to_string(),
    };
    let e = plan_launch("api", None, true, None).err().unwrap();
    assert_eq!(e, "등록되지 않은 프로젝트입니다.");
    let copy = Project { id: p.id.clone(), name: p.name.clone(), cwd: p.cwd.clone(), command: p.command.clone() };
    let e = plan_launch("api", Some(copy), false, None).err().unwrap();
    assert_eq!(e, "폴더가 없습니다: /srv/api");
    let copy = Project { id: p.id.clone(), name: p.name.clone(), cwd: p.cwd.clone(), command: p.command.clone() };
    let plan = plan_launch("api", Some(copy), true, None).unwrap();
    assert_eq!(plan.shell, "/bin/zsh");
    assert_eq!(plan.args, vec!["-lc", "pnpm dev"]);
    assert_eq!(plan.cwd, "/srv/api");
    assert_eq!(plan.log_file, "api.log");
    let plan = plan_launch("api", Some(p), true, Some("/bin/bash".to_string())).unwrap();
    assert_eq!(plan.shell, "/bin/bash");
}

#[test]
fn tail_lines_keeps_the_last_lines() {
    assert_eq!(tail_lines("a\nb\nc\nd\n", 2), "c\nd");
    assert_eq!(tail_lines("a\nb", 5), "a\nb");
    assert_eq!(tail_lines("a\r\nb\r\n", 1), "b");
    assert_eq!(tail_lines("", 3), "");
    assert_eq!(tail_lines("a\nb\n", 0), "");
    assert_eq!(tail_lines("a\n\nb", 2), "\nb");
}

#[test]
fn detect_with_scripts_takes_the_first_when_no_preferred() {
    let files = LockFiles { package_lock: true, ..no_files() };
    let scripts = vec!["lint".to_string(), "build".to_string()];
    let d = portly::detect::detect_with_scripts("/p".to_string(), true, files, scripts).unwrap();
    assert_eq!(d.suggested_command, "npm run lint");
    assert_eq!(d.scripts, vec!["lint", "build"]);
    let d = portly::detect::detect_with_scripts("/p".to_string(), true, files, vec![]).unwrap();
    assert_eq!(d.suggested_command, "npm dev");
    let e = portly::detect::detect_with_scripts("/q".to_string(), false, files, vec![]).err().unwrap();
    assert_eq!(e, "폴더가 아닙니다: /q");
}
