//! Ending a process through the `kill` command: which arguments it gets,
//! which PIDs are refused outright, and what its failures are reported as.
use vstd::prelude::*;

use crate::text::{
    law_decimal_round_trip, parse_i32,
    chars_of, contains, contains_chars, i32_decimal, int_decimal, owned, string_of, string_views,
    trim, trim_chars, append_chars,
};

verus! {

/// `SIGKILL` when forced, `SIGTERM` otherwise.
pub open spec fn signal_arg(force: bool) -> Seq<char> {
    if force {
        "-9"@
    } else {
        "-15"@
    }
}

pub open spec fn msg_refused(pid: int) -> Seq<char> {
    "종료 거부: PID "@ + int_decimal(pid) + "는 유효하지 않거나 시스템 필수 프로세스입니다."@
}

/// PIDs that are never signalled: `kill` reads negative ones as process
/// groups (`-1` is every process of the user), 0 is the caller's own
/// group and 1 is launchd.
pub open spec fn refused_pid(pid: int) -> bool {
    pid <= 1
}

/// The arguments of `kill` for this PID: the signal, `--` so that the PID
/// can never be read as an option, then the PID in decimal; or the refusal.
pub fn kill_args(pid: i32, force: bool) -> (r: Result<Vec<String>, String>)
    ensures
        refused_pid(pid as int) ==> (r matches Err(e) && e@ == msg_refused(pid as int)),
        !refused_pid(pid as int) ==> (r matches Ok(a) && string_views(a@) == seq![
            signal_arg(force),
            "--"@,
            int_decimal(pid as int),
        ]),
        pid <= 1 ==> r is Err,
        pid >= 2 ==> (r matches Ok(a) && string_views(a@) == seq![
            signal_arg(force),
            "--"@,
            int_decimal(pid as int),
        ]),
{
    let digits = i32_decimal(pid);
    if pid <= 1 {
        let mut m = chars_of("종료 거부: PID ");
        append_chars(&mut m, &digits);
        let tail = chars_of("는 유효하지 않거나 시스템 필수 프로세스입니다.");
        append_chars(&mut m, &tail);
        return Err(string_of(&m));
    }
    let signal = if force {
        owned("-9")
    } else {
        owned("-15")
    };
    let mut args: Vec<String> = Vec::new();
    args.push(signal);
    args.push(owned("--"));
    args.push(string_of(&digits));
    assert(string_views(args@) =~= seq![signal_arg(force), "--"@, int_decimal(pid as int)]);
    Ok(args)
}

/// Which PIDs are refused, and what `kill` is told for the others: exactly
/// the PIDs up to 1 (negative ones, 0 and 1) are refused; every PID from 2
/// up is signalled, with `-15` (SIGTERM) unless forced and `-9` (SIGKILL)
/// when forced, and its argument reads back as that PID.
pub proof fn law_kill_refuses_only_low_pids(pid: i32, force: bool)
    ensures
        refused_pid(pid as int) <==> pid <= 1,
        signal_arg(force) == (if force {
            "-9"@
        } else {
            "-15"@
        }),
        parse_i32(int_decimal(pid as int)) == Some(pid),
{
    law_decimal_round_trip(pid);
}

/// What a failed `kill` is reported as, from its standard error.
pub open spec fn failure_message(pid: int, stderr: Seq<char>) -> Seq<char> {
    if contains(stderr, "Operation not permitted"@) {
        "권한 없음: PID "@ + int_decimal(pid) + "는 시스템/타 사용자 프로세스라 종료할 수 없습니다."@
    } else if contains(stderr, "No such process"@) {
        "PID "@ + int_decimal(pid) + "는 이미 종료되었습니다."@
    } else {
        "종료 실패: "@ + trim(stderr)
    }
}

/// The message for a `kill` of `pid` that failed with the given standard error.
pub fn kill_error_message(pid: i32, stderr: &str) -> (r: String)
    ensures
        r@ == failure_message(pid as int, stderr@),
{
    let err = chars_of(stderr);
    let digits = i32_decimal(pid);
    let denied = chars_of("Operation not permitted");
    let gone = chars_of("No such process");
    if contains_chars(&err, &denied) {
        let mut m = chars_of("권한 없음: PID ");
        append_chars(&mut m, &digits);
        let tail = chars_of("는 시스템/타 사용자 프로세스라 종료할 수 없습니다.");
        append_chars(&mut m, &tail);
        string_of(&m)
    } else if contains_chars(&err, &gone) {
        let mut m = chars_of("PID ");
        append_chars(&mut m, &digits);
        let tail = chars_of("는 이미 종료되었습니다.");
        append_chars(&mut m, &tail);
        string_of(&m)
    } else {
        let mut m = chars_of("종료 실패: ");
        let t = trim_chars(&err);
        append_chars(&mut m, &t);
        string_of(&m)
    }
}

} // verus!
