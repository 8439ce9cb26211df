use portly::scan::{
    cwd_from_lsof, extract_port, parse_lsof, parse_ps_commands, parse_ps_detail, pid_list,
};

const HEADER: &str = "COMMAND     PID USER   FD   TYPE             DEVICE SIZE/OFF NODE NAME";

#[test]
fn extract_port_documented_forms() {
    assert_eq!(extract_port("*:3000"), 3000);
    assert_eq!(extract_port("127.0.0.1:5432"), 5432);
    assert_eq!(extract_port("[::1]:8080"), 8080);
}

#[test]
fn extract_port_without_number_is_zero() {
    assert_eq!(extract_port("*:*"), 0);
    assert_eq!(extract_port("localhost:http"), 0);
    assert_eq!(extract_port(""), 0);
    assert_eq!(extract_port("abc"), 0);
}

#[test]
fn extract_port_edge_cases() {
    // out of range for u16
    assert_eq!(extract_port("*:70000"), 0);
    assert_eq!(extract_port("*:65535"), 65535);
    // trailing non-digits are dropped, a leading '+' is accepted by parse
    assert_eq!(extract_port("*:443)"), 443);
    assert_eq!(extract_port("*:+80"), 80);
    // no colon: the whole text is the segment
    assert_eq!(extract_port("9000"), 9000);
    // only the part after the last colon counts
    assert_eq!(extract_port("1:2:3"), 3);
}

#[test]
fn parse_lsof_reads_listening_rows() {
    let text = format!(
        "{}\nnode      12345 coco   23u  IPv4 0x1234      0t0  TCP *:3000 (LISTEN)\nrapportd    618 coco   10u  IPv6 0xabcd      0t0  TCP [::1]:65499 (LISTEN)\n",
        HEADER
    );
    let rows = parse_lsof(&text);
    assert_eq!(rows.len(), 2);
    assert_eq!(rows[0].pid, 12345);
    assert_eq!(rows[0].port, 3000);
    assert_eq!(rows[0].protocol, "TCP");
    assert_eq!(rows[0].command, "node");
    assert_eq!(rows[0].process_name, "node");
    assert_eq!(rows[0].user, "coco");
    assert_eq!(rows[0].address, "*:3000 (LISTEN)");
    assert_eq!(rows[1].pid, 618);
    assert_eq!(rows[1].port, 65499);
    assert_eq!(rows[1].address, "[::1]:65499 (LISTEN)");
}

#[test]
fn parse_lsof_skips_header_short_lines_and_port_zero() {
    let text = format!(
        "{}\nshort line only\nudpd 1 root 3u IPv4 0x1 0t0 UDP *:*\npython3 77 me 4u IPv4 0x2 0t0 TCP 127.0.0.1:8000 (LISTEN)",
        HEADER
    );
    let rows = parse_lsof(&text);
    assert_eq!(rows.len(), 1);
    assert_eq!(rows[0].command, "python3");
    assert_eq!(rows[0].port, 8000);
    assert_eq!(rows[0].pid, 77);
}

#[test]
fn parse_lsof_bad_pid_becomes_minus_one() {
    let text = format!("{}\nx abc u 1 IPv4 d 0t0 TCP *:5000", HEADER);
    let rows = parse_lsof(&text);
    assert_eq!(rows.len(), 1);
    assert_eq!(rows[0].pid, -1);
    assert_eq!(rows[0].address, "*:5000");
}

#[test]
fn parse_lsof_empty_and_header_only() {
    assert!(parse_lsof("").is_empty());
    assert!(parse_lsof(HEADER).is_empty());
    // a data line in first position is the header and is skipped
    assert!(parse_lsof("node 1 u 1 IPv4 d 0t0 TCP *:3000").is_empty());
}

#[test]
fn parse_lsof_handles_crlf_and_tabs() {
    let text = format!("{}\r\nnode\t42\tme\t1u\tIPv4\td\t0t0\tTCP\t*:3001\r\n", HEADER);
    let rows = parse_lsof(&text);
    assert_eq!(rows.len(), 1);
    assert_eq!(rows[0].pid, 42);
    assert_eq!(rows[0].port, 3001);
    assert_eq!(rows[0].address, "*:3001");
}

#[test]
fn pid_list_joins_with_commas() {
    assert_eq!(pid_list(&vec![1, 22, 333]), "1,22,333");
    assert_eq!(pid_list(&vec![]), "");
    assert_eq!(pid_list(&vec![-5, 0]), "-5,0");
    assert_eq!(pid_list(&vec![i32::MIN, i32::MAX]), "-2147483648,2147483647");
}

#[test]
fn parse_ps_commands_reads_pid_and_command() {
    let text = "  123 node /usr/bin/vite --port 3000\n 4567 python3 -m http.server  \nnot-a-pid cmd\nlonely\n";
    let rows = parse_ps_commands(text);
    assert_eq!(rows.len(), 2);
    assert_eq!(rows[0].0, 123);
    assert_eq!(rows[0].1, "node /usr/bin/vite --port 3000");
    assert_eq!(rows[1].0, 4567);
    assert_eq!(rows[1].1, "python3 -m http.server");
}

#[test]
fn parse_ps_commands_empty() {
    assert!(parse_ps_commands("").is_empty());
}

#[test]
fn cwd_from_lsof_finds_name_line() {
    let text = "p123\nfcwd\nn/Users/coco/Desktop/factory/portal\n";
    assert_eq!(cwd_from_lsof(text), Some("/Users/coco/Desktop/factory/portal".to_string()));
    assert_eq!(cwd_from_lsof("p1\nfcwd\n"), None);
    assert_eq!(cwd_from_lsof(""), None);
    assert_eq!(cwd_from_lsof("n\n"), Some(String::new()));
}

#[test]
fn parse_ps_detail_fields() {
    let d = parse_ps_detail("0.3 12345 node server.js --x\n");
    assert_eq!(d.mem_field, "0.3");
    assert_eq!(d.rss_kb, 12345);
    assert_eq!(d.full_command, "node server.js --x");
}

#[test]
fn parse_ps_detail_reads_padded_columns() {
    let d = parse_ps_detail(" 0.5   20480 node server.js");
    assert_eq!(d.mem_field, "0.5");
    assert_eq!(d.rss_kb, 20480);
    assert_eq!(d.full_command, "node server.js");
    let d = parse_ps_detail(" 0.1  2048 node\n 9.9 1 other\n");
    assert_eq!(d.mem_field, "0.1");
    assert_eq!(d.rss_kb, 2048);
    assert_eq!(d.full_command, "node");
}

#[test]
fn parse_ps_detail_missing_parts() {
    let d = parse_ps_detail("");
    assert_eq!(d.mem_field, "");
    assert_eq!(d.rss_kb, 0);
    assert_eq!(d.full_command, "");
    let d = parse_ps_detail("1.5 77");
    assert_eq!(d.mem_field, "1.5");
    assert_eq!(d.rss_kb, 77);
    assert_eq!(d.full_command, "");
    let d = parse_ps_detail("1.5 x y");
    assert_eq!(d.rss_kb, 0);
    assert_eq!(d.full_command, "y");
}

#[test]
fn parse_lsof_reads_lines_independently() {
    let a = "node 1 me 3u IPv4 d 0t0 TCP *:3000 (LISTEN)";
    let b = "ruby 2 me 4u IPv6 d 0t0 TCP [::1]:4000 (LISTEN)\r";
    let both = parse_lsof(&format!("{HEADER}\n{a}\n{b}"));
    let first = parse_lsof(&format!("{HEADER}\n{a}"));
    let second = parse_lsof(&format!("{HEADER}\n{b}"));
    assert_eq!(both.len(), first.len() + second.len());
    let joined: Vec<(i32, u16, String)> = first
        .iter()
        .chain(second.iter())
        .map(|r| (r.pid, r.port, r.address.clone()))
        .collect();
    let got: Vec<(i32, u16, String)> =
        both.iter().map(|r| (r.pid, r.port, r.address.clone())).collect();
    assert_eq!(got, joined);
}
