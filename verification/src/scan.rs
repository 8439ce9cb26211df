//! Reading the output of `lsof` and `ps`: listening sockets, the command
//! lines and working folders of processes, and their memory use.
use vstd::prelude::*;

use crate::model::{PortProcess, PortRow};
use crate::text::{
    is_space, lemma_decimal_no_space, lemma_lines_of_line, lemma_run_end_all,
    lemma_run_end_append, lemma_trim_fixed, law_decimal_round_trip, lemma_nat_decimal,
    nat_decimal, in_class, is_digit, all_digits, digits_value,
    lemma_lines_concat, lemma_lines_single, lemma_run_end, lemma_run_end_push, lemma_words_strip_cr,
    lines_from, strip_cr,
    chars_of, i32_decimal, int_decimal, join, join_range, lines, lines_of, parse_i32, parse_i32_chars, parse_u16, parse_u16_chars,
    parse_u64, parse_u64_chars, run_end, run_start, scan_run_end, scan_run_start, slice_of,
    string_of, trim, trim_chars, trim_end_class, trim_end_class_chars, trim_start,
    trim_start_chars, views, words, words_of, CharClass,
};

verus! {

/// The port in an lsof NAME such as `*:3000`, `127.0.0.1:5432` or
/// `[::1]:8080`: the text after the last `':'`, without its trailing
/// non-digits, read as a `u16`; `0` when that fails.
pub open spec fn port_of(name: Seq<char>) -> u16 {
    let seg = name.skip(run_start(name, CharClass::NonColon, name.len() as int));
    match parse_u16(trim_end_class(seg, CharClass::NonDigit)) {
        Some(p) => p,
        None => 0,
    }
}

/// One line of `lsof` output (COMMAND PID USER FD TYPE DEVICE SIZE/OFF NODE
/// NAME...): `None` for a line of fewer than nine columns or whose port is 0.
pub open spec fn lsof_row(line: Seq<char>) -> Option<PortRow> {
    let cols = words(line);
    if cols.len() < 9 {
        None
    } else {
        let port = port_of(cols[8]);
        if port == 0 {
            None
        } else {
            Some(
                PortRow {
                    pid: match parse_i32(cols[1]) {
                        Some(p) => p,
                        None => -1i32,
                    },
                    port: port,
                    protocol: cols[7],
                    command: cols[0],
                    process_name: cols[0],
                    user: cols[2],
                    address: join(cols.skip(8), seq![' ']),
                },
            )
        }
    }
}

/// The rows of the given lines, in order, leaving out those that give none.
pub open spec fn lsof_rows(ls: Seq<Seq<char>>) -> Seq<PortRow>
    decreases ls.len(),
{
    if ls.len() == 0 {
        seq![]
    } else {
        lsof_rows(ls.drop_last()) + match lsof_row(ls.last()) {
            Some(r) => seq![r],
            None => seq![],
        }
    }
}

/// The lines after the first (the header), if there are any.
pub open spec fn after_header(ls: Seq<Seq<char>>) -> Seq<Seq<char>> {
    if ls.len() == 0 {
        ls
    } else {
        ls.drop_first()
    }
}

/// What `parse_lsof` makes of the whole output.
pub open spec fn lsof_table(text: Seq<char>) -> Seq<PortRow> {
    lsof_rows(after_header(lines(text)))
}

pub open spec fn row_views(v: Seq<PortProcess>) -> Seq<PortRow> {
    Seq::new(v.len(), |i: int| v[i]@)
}

pub proof fn lemma_lsof_rows(ls: Seq<Seq<char>>)
    ensures
        lsof_rows(ls).len() <= ls.len(),
        forall|i: int|
            0 <= i < lsof_rows(ls).len() ==> (#[trigger] lsof_rows(ls)[i]).port != 0
                && lsof_rows(ls)[i].process_name == lsof_rows(ls)[i].command,
    decreases ls.len(),
{
    if ls.len() > 0 {
        lemma_lsof_rows(ls.drop_last());
    }
}

/// Rows are read line by line: the rows of two runs of lines are the rows
/// of the first followed by the rows of the second.
pub proof fn law_rows_concat(xs: Seq<Seq<char>>, ys: Seq<Seq<char>>)
    ensures
        lsof_rows(xs + ys) == lsof_rows(xs) + lsof_rows(ys),
    decreases ys.len(),
{
    if ys.len() == 0 {
        assert(xs + ys =~= xs);
        assert(lsof_rows(xs) + lsof_rows(ys) =~= lsof_rows(xs));
    } else {
        law_rows_concat(xs, ys.drop_last());
        assert((xs + ys).drop_last() =~= xs + ys.drop_last());
        assert((xs + ys).last() == ys.last());
        let tail = match lsof_row(ys.last()) {
            Some(r) => seq![r],
            None => seq![],
        };
        assert(lsof_rows(xs) + lsof_rows(ys.drop_last()) + tail =~= lsof_rows(xs) + (lsof_rows(
            ys.drop_last(),
        ) + tail));
    }
}

proof fn lemma_row_strip_cr(l: Seq<char>)
    ensures
        lsof_row(strip_cr(l)) == lsof_row(l),
{
    lemma_words_strip_cr(l);
}

proof fn lemma_rows_one(l: Seq<char>)
    ensures
        lsof_rows(seq![l]) == match lsof_row(l) {
            Some(r) => seq![r],
            None => seq![],
        },
{
    assert(seq![l].drop_last() =~= seq![]);
    assert(lsof_rows(seq![]) + match lsof_row(l) {
        Some(r) => seq![r],
        None => seq![],
    } =~= match lsof_row(l) {
        Some(r) => seq![r],
        None => seq![],
    });
}

/// Ending the text with a newline adds no row.
proof fn lemma_rows_terminated(a: Seq<char>, i: int)
    requires
        0 <= i <= a.len(),
    ensures
        lsof_rows(lines_from(a.push('\n'), i)) == lsof_rows(lines_from(a, i)),
    decreases a.len() - i,
{
    let t = a.push('\n');
    lemma_run_end(a, CharClass::NonNewline, i);
    lemma_run_end_push(a, '\n', CharClass::NonNewline, i);
    let e = run_end(a, CharClass::NonNewline, i);
    if e < a.len() {
        assert(t.subrange(i, e) =~= a.subrange(i, e));
        let l = strip_cr(a.subrange(i, e));
        lemma_rows_terminated(a, e + 1);
        law_rows_concat(seq![l], lines_from(t, e + 1));
        law_rows_concat(seq![l], lines_from(a, e + 1));
    } else {
        assert(lines_from(t, e + 1) =~= seq![]);
        assert(t.subrange(i, e) =~= a.subrange(i, e));
        let l = a.subrange(i, e);
        assert(lines_from(t, i) =~= seq![strip_cr(l)]);
        lemma_rows_one(strip_cr(l));
        lemma_row_strip_cr(l);
        if i < a.len() {
            assert(a.subrange(i, a.len() as int) == l);
            lemma_rows_one(l);
        } else {
            assert(l =~= seq![]);
            assert(words(l) =~= seq![]);
            assert(lines_from(a, i) =~= seq![]);
        }
    }
}

/// Behind a header line, the table is the rows of the remaining lines.
proof fn lemma_table_after_header(h: Seq<char>, r: Seq<char>)
    requires
        forall|j: int| 0 <= j < h.len() ==> h[j] != '\n',
    ensures
        lsof_table(h.push('\n') + r) == lsof_rows(lines(r)),
{
    lemma_lines_concat(h, r);
    lemma_lines_single(h);
    assert((seq![strip_cr(h)] + lines(r)).drop_first() =~= lines(r));
}

/// `parse_lsof` reads each line on its own, in order: behind the same
/// header, the table of the lines of `a` and then `b` is the table of `a`
/// followed by the table of `b`.
pub proof fn law_lsof_lines_independent(h: Seq<char>, a: Seq<char>, b: Seq<char>)
    requires
        forall|j: int| 0 <= j < h.len() ==> h[j] != '\n',
    ensures
        lsof_table(h.push('\n') + a.push('\n') + b) == lsof_table(h.push('\n') + a) + lsof_table(
            h.push('\n') + b,
        ),
{
    assert(h.push('\n') + a.push('\n') + b =~= h.push('\n') + (a.push('\n') + b));
    lemma_table_after_header(h, a.push('\n') + b);
    lemma_table_after_header(h, a);
    lemma_table_after_header(h, b);
    lemma_lines_concat(a, b);
    law_rows_concat(lines(a.push('\n')), lines(b));
    lemma_rows_terminated(a, 0);
}

/// Which lines make a row, and what it holds: every line of at least nine
/// columns whose NAME column yields a non-zero port gives a row, whatever its
/// NODE column (`TCP` or `UDP`) says; the row carries the COMMAND, PID (-1
/// when unreadable), USER and NODE columns and that port. No other line gives
/// a row.
pub proof fn law_lsof_row_columns(line: Seq<char>)
    ensures
        ({
            let cols = words(line);
            &&& (cols.len() >= 9 && port_of(cols[8]) != 0) <==> lsof_row(line) is Some
            &&& lsof_row(line) matches Some(r) ==> {
                &&& r.port == port_of(cols[8])
                &&& r.protocol == cols[7]
                &&& r.command == cols[0]
                &&& r.process_name == cols[0]
                &&& r.user == cols[2]
                &&& (parse_i32(cols[1]) matches Some(p) ==> r.pid == p)
                &&& (parse_i32(cols[1]) is None ==> r.pid == -1)
            }
        }),
{
}

/// Behind the header, a single data line of at least nine columns with a
/// non-zero port is listed as exactly one row, with its NODE column as the
/// protocol, be it `TCP` or `UDP`.
pub proof fn law_lsof_data_line_listed(h: Seq<char>, l: Seq<char>)
    requires
        forall|j: int| 0 <= j < h.len() ==> h[j] != '\n',
        forall|j: int| 0 <= j < l.len() ==> l[j] != '\n',
        words(l).len() >= 9,
        port_of(words(l)[8]) != 0,
    ensures
        lsof_table(h.push('\n') + l).len() == 1,
        lsof_table(h.push('\n') + l)[0].protocol == words(l)[7],
        lsof_table(h.push('\n') + l)[0].port == port_of(words(l)[8]),
        lsof_table(h.push('\n') + l)[0].command == words(l)[0],
        lsof_table(h.push('\n') + l)[0].user == words(l)[2],
{
    lemma_table_after_header(h, l);
    lemma_lines_of_line(l);
    if l.len() == 0 {
        assert(words(l) =~= seq![]);
    }
    lemma_rows_one(l);
}

/// The last run of characters that are not in class `k` ends the text:
/// the run of class-`k` characters that ends the text starts right after
/// the last character outside the class.
proof fn lemma_run_start_tail(q: Seq<char>, c: char, d: Seq<char>, k: CharClass)
    requires
        !in_class(c, k),
        forall|j: int| 0 <= j < d.len() ==> in_class(#[trigger] d[j], k),
    ensures
        run_start(q.push(c) + d, k, (q.len() + 1 + d.len()) as int) == q.len() + 1,
    decreases d.len(),
{
    let s = q.push(c) + d;
    if d.len() == 0 {
        assert(s[q.len() as int] == c);
    } else {
        assert(s[s.len() - 1] == d.last());
        lemma_run_start_tail(q, c, d.drop_last(), k);
        assert(q.push(c) + d.drop_last() =~= s.take(s.len() - 1));
        lemma_run_start_prefix(s, k, s.len() - 1);
    }
}

proof fn lemma_run_start_prefix(s: Seq<char>, k: CharClass, j: int)
    requires
        0 <= j <= s.len(),
    ensures
        run_start(s.take(j), k, j) == run_start(s, k, j),
    decreases j,
{
    if j > 0 {
        assert(s.take(j)[j - 1] == s[j - 1]);
        if in_class(s[j - 1], k) {
            assert(s.take(j - 1) =~= s.take(j).take(j - 1));
            lemma_run_start_prefix(s, k, j - 1);
            lemma_run_start_prefix(s.take(j), k, j - 1);
        }
    }
}

/// The port is the number written after the last `':'` of the NAME column.
pub proof fn law_port_after_last_colon(q: Seq<char>, n: u16)
    requires
        n > 0,
    ensures
        port_of(q.push(':') + nat_decimal(n as nat)) == n,
{
    let d = nat_decimal(n as nat);
    lemma_nat_decimal(n as nat);
    let s = q.push(':') + d;
    assert forall|j: int| 0 <= j < d.len() implies in_class(#[trigger] d[j], CharClass::NonColon) by {
        assert(is_digit(d[j]));
    }
    lemma_run_start_tail(q, ':', d, CharClass::NonColon);
    assert(s.skip(q.len() + 1int) =~= d);
    assert(!in_class(d.last(), CharClass::NonDigit)) by {
        assert(is_digit(d[d.len() - 1]));
    }
    assert(run_start(d, CharClass::NonDigit, d.len() as int) == d.len());
    assert(trim_end_class(d, CharClass::NonDigit) =~= d);
    assert(is_digit(d[0]));
}

fn port_of_chars(name: &Vec<char>) -> (r: u16)
    ensures
        r == port_of(name@),
{
    let k = scan_run_start(name, CharClass::NonColon, name.len());
    let seg = slice_of(name, k, name.len());
    let digits = trim_end_class_chars(&seg, CharClass::NonDigit);
    match parse_u16_chars(&digits) {
        Some(p) => p,
        None => 0,
    }
}

/// The port number at the end of an lsof NAME column, `0` when there is none.
pub fn extract_port(name: &str) -> (r: u16)
    ensures
        r == port_of(name@),
{
    let chars = chars_of(name);
    port_of_chars(&chars)
}

fn lsof_row_of(line: &Vec<char>) -> (r: Option<PortProcess>)
    ensures
        match r {
            Some(p) => lsof_row(line@) == Some(p@),
            None => lsof_row(line@) is None,
        },
{
    let cols = words_of(line);
    if cols.len() < 9 {
        return None;
    }
    let port = port_of_chars(&cols[8]);
    if port == 0 {
        return None;
    }
    let pid = match parse_i32_chars(&cols[1]) {
        Some(p) => p,
        None => -1,
    };
    let mut space: Vec<char> = Vec::new();
    space.push(' ');
    let address = join_range(&cols, 8, cols.len(), &space);
    let command = string_of(&cols[0]);
    let process_name = command.clone();
    let row = PortProcess {
        pid,
        port,
        protocol: string_of(&cols[7]),
        command,
        process_name,
        user: string_of(&cols[2]),
        address: string_of(&address),
    };
    assert(views(cols@).subrange(8, cols.len() as int) =~= words(line@).skip(8));
    assert(space@ =~= seq![' ']);
    Some(row)
}

/// The listening sockets in the output of `lsof -i -P -n -sTCP:LISTEN`:
/// the header line is skipped, and so are lines with fewer than nine
/// columns and those whose port reads as 0; a PID that does not parse
/// becomes -1.
pub fn parse_lsof(text: &str) -> (r: Vec<PortProcess>)
    ensures
        row_views(r@) == lsof_table(text@),
        forall|i: int|
            0 <= i < r.len() ==> (#[trigger] r[i]).port != 0 && r[i].process_name@
                == r[i].command@,
        r.len() + 1 <= lines(text@).len() || r.len() == 0,
{
    let chars = chars_of(text);
    let ls = lines_of(&chars);
    let ghost all = views(ls@);
    let ghost body = after_header(all);
    let mut rows: Vec<PortProcess> = Vec::new();
    if ls.len() > 0 {
        let mut i: usize = 1;
        while i < ls.len()
            invariant
                1 <= i <= ls.len(),
                all == views(ls@),
                body == all.drop_first(),
                row_views(rows@) == lsof_rows(body.take(i - 1)),
            decreases ls.len() - i,
        {
            let ghost prev = row_views(rows@);
            assert(body.take(i as int).drop_last() =~= body.take(i - 1));
            assert(body.take(i as int).last() == ls@[i as int]@);
            match lsof_row_of(&ls[i]) {
                Some(p) => {
                    rows.push(p);
                    assert(row_views(rows@) =~= prev + seq![p@]);
                },
                None => {
                    assert(prev + seq![] =~= prev);
                },
            }
            i = i + 1;
        }
        assert(body.take(i - 1) =~= body);
    } else {
        assert(row_views(rows@) =~= seq![]);
    }
    proof {
        lemma_lsof_rows(body);
        assert forall|i: int| 0 <= i < rows.len() implies (#[trigger] rows[i]).port != 0
            && rows[i].process_name@ == rows[i].command@ by {
            assert(row_views(rows@)[i] == rows[i]@);
        }
    }
    rows
}

/// `ps -o pid=,command=` gives one `<pid> <command...>` line per process:
/// the PID is what comes before the first white space of the line with its
/// leading white space removed; `None` when there is no white space or the
/// PID does not parse.
pub open spec fn ps_command_line(line: Seq<char>) -> Option<(i32, Seq<char>)> {
    let l = trim_start(line);
    let k = run_end(l, CharClass::NonSpace, 0);
    if k >= l.len() {
        None
    } else {
        match parse_i32(trim(l.take(k))) {
            Some(pid) => Some((pid, trim(l.skip(k + 1)))),
            None => None,
        }
    }
}

pub open spec fn ps_command_rows(ls: Seq<Seq<char>>) -> Seq<(i32, Seq<char>)>
    decreases ls.len(),
{
    if ls.len() == 0 {
        seq![]
    } else {
        ps_command_rows(ls.drop_last()) + match ps_command_line(ls.last()) {
            Some(r) => seq![r],
            None => seq![],
        }
    }
}

/// The pairs of two runs of lines are the pairs of the first followed by
/// the pairs of the second: every line is read, in order.
pub proof fn law_ps_rows_concat(xs: Seq<Seq<char>>, ys: Seq<Seq<char>>)
    ensures
        ps_command_rows(xs + ys) == ps_command_rows(xs) + ps_command_rows(ys),
    decreases ys.len(),
{
    if ys.len() == 0 {
        assert(xs + ys =~= xs);
        assert(ps_command_rows(xs) + ps_command_rows(ys) =~= ps_command_rows(xs));
    } else {
        law_ps_rows_concat(xs, ys.drop_last());
        assert((xs + ys).drop_last() =~= xs + ys.drop_last());
        assert((xs + ys).last() == ys.last());
        let tail = match ps_command_line(ys.last()) {
            Some(r) => seq![r],
            None => seq![],
        };
        assert(ps_command_rows(xs) + ps_command_rows(ys.drop_last()) + tail =~= ps_command_rows(xs)
            + (ps_command_rows(ys.drop_last()) + tail));
    }
}

/// A line `<pid> <command>` is read as that PID and that command, for every
/// `i32` PID and every command without white space at its ends.
pub proof fn law_ps_line_read(pid: i32, command: Seq<char>)
    requires
        command.len() == 0 || (!is_space(command[0]) && !is_space(command.last())),
    ensures
        ps_command_line(int_decimal(pid as int) + seq![' '] + command) == Some((pid, command)),
{
    let d = int_decimal(pid as int);
    let line = d + seq![' '] + command;
    lemma_decimal_no_space(pid as int);
    law_decimal_round_trip(pid);
    assert(run_end(line, CharClass::Space, 0) == 0) by {
        assert(line[0] == d[0]);
    }
    assert(trim_start(line) =~= line);
    assert forall|j: int| 0 <= j < d.len() implies in_class(#[trigger] d[j], CharClass::NonSpace) by {}
    lemma_run_end_all(d, CharClass::NonSpace, 0);
    lemma_run_end_push(d, ' ', CharClass::NonSpace, 0);
    assert(d + seq![' '] =~= d.push(' '));
    lemma_run_end_append(d.push(' '), command, CharClass::NonSpace, 0);
    assert(line =~= d.push(' ') + command);
    assert(line.take(d.len() as int) =~= d);
    assert(line.skip(d.len() + 1int) =~= command);
    lemma_trim_fixed(d);
    lemma_trim_fixed(command);
}

/// Reading `ps` output line by line: the pairs of a text (ended by a
/// newline) followed by one more line are the pairs of the text, then the
/// pair of that line, if it has one. The last line is read too.
pub proof fn law_ps_every_line_read(text: Seq<char>, l: Seq<char>)
    requires
        forall|j: int| 0 <= j < l.len() ==> l[j] != '\n',
    ensures
        ps_command_rows(lines(text.push('\n') + l)) == ps_command_rows(lines(text.push('\n')))
            + match ps_command_line(l) {
            Some(r) => seq![r],
            None => seq![],
        },
{
    lemma_lines_concat(text, l);
    lemma_lines_of_line(l);
    law_ps_rows_concat(lines(text.push('\n')), lines(l));
    if l.len() == 0 {
        assert(ps_command_line(l) is None);
        assert(ps_command_rows(lines(l)) =~= seq![]);
    } else {
        let t = match ps_command_line(l) {
            Some(r) => seq![r],
            None => seq![],
        };
        assert(seq![l].drop_last() =~= Seq::<Seq<char>>::empty());
        assert(seq![l].last() == l);
        assert(ps_command_rows(seq![l]) == ps_command_rows(seq![l].drop_last()) + t);
        assert(ps_command_rows(seq![l].drop_last()) + t =~= t);
    }
}

pub open spec fn pair_views(v: Seq<(i32, String)>) -> Seq<(i32, Seq<char>)> {
    Seq::new(v.len(), |i: int| (v[i].0, v[i].1@))
}

fn ps_command_of(line: &Vec<char>) -> (r: Option<(i32, String)>)
    ensures
        match r {
            Some(p) => ps_command_line(line@) == Some((p.0, p.1@)),
            None => ps_command_line(line@) is None,
        },
{
    let l = trim_start_chars(line);
    let k = scan_run_end(&l, CharClass::NonSpace, 0);
    if k >= l.len() {
        return None;
    }
    let pid_part = slice_of(&l, 0, k);
    let pid_text = trim_chars(&pid_part);
    match parse_i32_chars(&pid_text) {
        Some(pid) => {
            let rest = slice_of(&l, k + 1, l.len());
            let cmd = trim_chars(&rest);
            assert(l@.take(k as int) =~= pid_part@);
            assert(l@.skip(k + 1) =~= rest@);
            Some((pid, string_of(&cmd)))
        },
        None => {
            assert(l@.take(k as int) =~= pid_part@);
            None
        },
    }
}

/// The `(pid, command line)` pairs in the output of
/// `ps -p <pids> -o pid=,command=`, in order; lines that do not start with
/// a PID followed by white space are left out.
pub fn parse_ps_commands(text: &str) -> (r: Vec<(i32, String)>)
    ensures
        pair_views(r@) == ps_command_rows(lines(text@)),
{
    let chars = chars_of(text);
    let ls = lines_of(&chars);
    let ghost all = views(ls@);
    let mut out: Vec<(i32, String)> = Vec::new();
    let mut i: usize = 0;
    while i < ls.len()
        invariant
            i <= ls.len(),
            all == views(ls@),
            pair_views(out@) == ps_command_rows(all.take(i as int)),
        decreases ls.len() - i,
    {
        let ghost prev = pair_views(out@);
        assert(all.take(i + 1).drop_last() =~= all.take(i as int));
        assert(all.take(i + 1).last() == ls@[i as int]@);
        match ps_command_of(&ls[i]) {
            Some(p) => {
                let ghost pv = (p.0, p.1@);
                out.push(p);
                assert(pair_views(out@) =~= prev + seq![pv]);
            },
            None => {
                assert(prev + seq![] =~= prev);
            },
        }
        i = i + 1;
    }
    assert(all.take(i as int) =~= all);
    out
}

/// The comma-separated PID list that `ps -p` takes.
pub open spec fn pid_list_text(pids: Seq<i32>) -> Seq<char> {
    join(Seq::new(pids.len(), |i: int| int_decimal(pids[i] as int)), seq![','])
}

/// The PIDs written in decimal and joined with commas, as `ps -p` takes them.
pub fn pid_list(pids: &Vec<i32>) -> (r: String)
    ensures
        r@ == pid_list_text(pids@),
{
    let mut parts: Vec<Vec<char>> = Vec::new();
    let mut i: usize = 0;
    while i < pids.len()
        invariant
            i <= pids.len(),
            parts.len() == i,
            forall|j: int| 0 <= j < i ==> (#[trigger] parts[j])@ == int_decimal(pids[j] as int),
        decreases pids.len() - i,
    {
        parts.push(i32_decimal(pids[i]));
        i = i + 1;
    }
    let mut comma: Vec<char> = Vec::new();
    comma.push(',');
    let joined = join_range(&parts, 0, parts.len(), &comma);
    assert(views(parts@).subrange(0, parts.len() as int) =~= Seq::new(
        pids@.len(),
        |i: int| int_decimal(pids@[i] as int),
    ));
    assert(comma@ =~= seq![',']);
    string_of(&joined)
}

/// The first line of `lsof -Fn` output that starts with `'n'`, without
/// that letter: the path of the file named.
pub open spec fn first_name_field(ls: Seq<Seq<char>>) -> Option<Seq<char>>
    decreases ls.len(),
{
    if ls.len() == 0 {
        None
    } else if ls[0].len() > 0 && ls[0][0] == 'n' {
        Some(ls[0].drop_first())
    } else {
        first_name_field(ls.drop_first())
    }
}

/// The working folder in the output of `lsof -a -p PID -d cwd -Fn`.
pub fn cwd_from_lsof(text: &str) -> (r: Option<String>)
    ensures
        match r {
            Some(s) => first_name_field(lines(text@)) == Some(s@),
            None => first_name_field(lines(text@)) is None,
        },
{
    let chars = chars_of(text);
    let ls = lines_of(&chars);
    let ghost all = views(ls@);
    assert(all.skip(0) =~= all);
    let mut i: usize = 0;
    while i < ls.len()
        invariant
            i <= ls.len(),
            all == views(ls@),
            all == lines(text@),
            first_name_field(all) == first_name_field(all.skip(i as int)),
        decreases ls.len() - i,
    {
        assert(all.skip(i as int)[0] == ls@[i as int]@);
        assert(all.skip(i as int).drop_first() =~= all.skip(i + 1));
        if ls[i].len() > 0 && ls[i][0] == 'n' {
            let path = slice_of(&ls[i], 1, ls[i].len());
            assert(path@ =~= ls@[i as int]@.drop_first());
            return Some(string_of(&path));
        }
        i = i + 1;
    }
    None
}

/// The three fields of one `ps -o %mem=,rss=,command=` line.
#[derive(Debug, Clone)]
pub struct PsDetail {
    /// The `%mem` text, still to be read as a number.
    pub mem_field: String,
    pub rss_kb: u64,
    pub full_command: String,
}

pub struct PsDetailView {
    pub mem_field: Seq<char>,
    pub rss_kb: u64,
    pub full_command: Seq<char>,
}

impl View for PsDetail {
    type V = PsDetailView;

    open spec fn view(&self) -> PsDetailView {
        PsDetailView {
            mem_field: self.mem_field@,
            rss_kb: self.rss_kb,
            full_command: self.full_command@,
        }
    }
}

/// The first line read as `%mem`, `rss` and the command: the first two
/// white-space separated tokens are the numbers and the rest, trimmed, is
/// the command line. `rss` is read as a `u64`, 0 when missing or malformed;
/// a missing command is empty. (`ps` pads its columns, so tokens are
/// separated by runs of white space.)
pub open spec fn ps_detail_of(text: Seq<char>) -> PsDetailView {
    let ls = lines(text);
    let line = if ls.len() > 0 {
        ls[0]
    } else {
        seq![]
    };
    let l = trim_start(line);
    let a = run_end(l, CharClass::NonSpace, 0);
    let b = run_end(l, CharClass::Space, a);
    let c = run_end(l, CharClass::NonSpace, b);
    PsDetailView {
        mem_field: l.take(a),
        rss_kb: match parse_u64(l.subrange(b, c)) {
            Some(v) => v,
            None => 0,
        },
        full_command: trim(l.skip(c)),
    }
}

/// The fields of the first line of `ps -p PID -o %mem=,rss=,command=`.
pub fn parse_ps_detail(text: &str) -> (r: PsDetail)
    ensures
        r@ == ps_detail_of(text@),
{
    let chars = chars_of(text);
    let ls = lines_of(&chars);
    let line: Vec<char> = if ls.len() > 0 {
        slice_of(&ls[0], 0, ls[0].len())
    } else {
        Vec::new()
    };
    assert(line@ =~= (if views(ls@).len() > 0 {
        views(ls@)[0]
    } else {
        seq![]
    }));
    let l = trim_start_chars(&line);
    let a = scan_run_end(&l, CharClass::NonSpace, 0);
    let b = scan_run_end(&l, CharClass::Space, a);
    let c = scan_run_end(&l, CharClass::NonSpace, b);
    let mem = slice_of(&l, 0, a);
    let rss_text = slice_of(&l, b, c);
    let rest = slice_of(&l, c, l.len());
    assert(mem@ =~= l@.take(a as int));
    assert(rest@ =~= l@.skip(c as int));
    let rss = match parse_u64_chars(&rss_text) {
        Some(v) => v,
        None => 0,
    };
    let cmd = trim_chars(&rest);
    PsDetail { mem_field: string_of(&mem), rss_kb: rss, full_command: string_of(&cmd) }
}

} // verus!
