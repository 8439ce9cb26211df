//! Character-level text handling: the pieces of `str`'s behaviour that the
//! parsers of this crate rely on (white space, lines, words, trimming,
//! decimal numbers), each stated as a spec function over `Seq<char>` and
//! implemented over `Vec<char>`.
use vstd::prelude::*;

verus! {

/// Unicode `White_Space`, the property that `char::is_whitespace` tests.
pub open spec fn is_space(c: char) -> bool {
    let u = c as u32;
    ||| 0x09 <= u <= 0x0D
    ||| u == 0x20
    ||| u == 0x85
    ||| u == 0xA0
    ||| u == 0x1680
    ||| 0x2000 <= u <= 0x200A
    ||| u == 0x2028
    ||| u == 0x2029
    ||| u == 0x202F
    ||| u == 0x205F
    ||| u == 0x3000
}

/// An ASCII decimal digit.
pub open spec fn is_digit(c: char) -> bool {
    '0' <= c <= '9'
}

/// The classes of characters over which the scanners below run.
#[derive(Clone, Copy)]
pub enum CharClass {
    Space,
    NonSpace,
    NonNewline,
    Slash,
    NonDigit,
    NonColon,
}

pub open spec fn in_class(c: char, k: CharClass) -> bool {
    match k {
        CharClass::Space => is_space(c),
        CharClass::NonSpace => !is_space(c),
        CharClass::NonNewline => c != '\n',
        CharClass::Slash => c == '/',
        CharClass::NonDigit => !is_digit(c),
        CharClass::NonColon => c != ':',
    }
}

/// The first index at or after `i` whose character is not in class `k`
/// (`s.len()` when there is none).
pub open spec fn run_end(s: Seq<char>, k: CharClass, i: int) -> int
    decreases s.len() - i,
{
    if 0 <= i < s.len() && in_class(s[i], k) {
        run_end(s, k, i + 1)
    } else {
        i
    }
}

/// The start of the run of class-`k` characters that ends just before `j`.
pub open spec fn run_start(s: Seq<char>, k: CharClass, j: int) -> int
    decreases j,
{
    if 0 < j <= s.len() && in_class(s[j - 1], k) {
        run_start(s, k, j - 1)
    } else {
        j
    }
}

pub proof fn lemma_run_end(s: Seq<char>, k: CharClass, i: int)
    requires
        0 <= i <= s.len(),
    ensures
        i <= run_end(s, k, i) <= s.len(),
        forall|j: int| i <= j < run_end(s, k, i) ==> in_class(#[trigger] s[j], k),
        run_end(s, k, i) < s.len() ==> !in_class(s[run_end(s, k, i)], k),
    decreases s.len() - i,
{
    if i < s.len() && in_class(s[i], k) {
        lemma_run_end(s, k, i + 1);
    }
}

pub proof fn lemma_run_start(s: Seq<char>, k: CharClass, j: int)
    requires
        0 <= j <= s.len(),
    ensures
        0 <= run_start(s, k, j) <= j,
        forall|m: int| run_start(s, k, j) <= m < j ==> in_class(#[trigger] s[m], k),
        run_start(s, k, j) > 0 ==> !in_class(s[run_start(s, k, j) - 1], k),
    decreases j,
{
    if j > 0 && in_class(s[j - 1], k) {
        lemma_run_start(s, k, j - 1);
    }
}

/// Strip leading white space (`str::trim_start`).
pub open spec fn trim_start(s: Seq<char>) -> Seq<char> {
    s.skip(run_end(s, CharClass::Space, 0))
}

/// Strip trailing white space (`str::trim_end`).
pub open spec fn trim_end(s: Seq<char>) -> Seq<char> {
    s.take(run_start(s, CharClass::Space, s.len() as int))
}

/// Strip white space on both sides (`str::trim`).
pub open spec fn trim(s: Seq<char>) -> Seq<char> {
    trim_end(trim_start(s))
}

/// Strip every trailing character of class `k` (`str::trim_end_matches`).
pub open spec fn trim_end_class(s: Seq<char>, k: CharClass) -> Seq<char> {
    s.take(run_start(s, k, s.len() as int))
}

pub fn class_has(c: char, k: CharClass) -> (b: bool)
    ensures
        b == in_class(c, k),
{
    let u = c as u32;
    let space = (0x09 <= u && u <= 0x0D) || u == 0x20 || u == 0x85 || u == 0xA0 || u == 0x1680
        || (0x2000 <= u && u <= 0x200A) || u == 0x2028 || u == 0x2029 || u == 0x202F || u == 0x205F
        || u == 0x3000;
    match k {
        CharClass::Space => space,
        CharClass::NonSpace => !space,
        CharClass::NonNewline => c != '\n',
        CharClass::Slash => c == '/',
        CharClass::NonDigit => !('0' <= c && c <= '9'),
        CharClass::NonColon => c != ':',
    }
}

/// Exec counterpart of `run_end`.
pub fn scan_run_end(s: &Vec<char>, k: CharClass, i: usize) -> (r: usize)
    requires
        i <= s.len(),
    ensures
        r == run_end(s@, k, i as int),
        i <= r <= s.len(),
{
    let mut j = i;
    while j < s.len() && class_has(s[j], k)
        invariant
            i <= j <= s.len(),
            run_end(s@, k, i as int) == run_end(s@, k, j as int),
        decreases s.len() - j,
    {
        j = j + 1;
    }
    j
}

/// Exec counterpart of `run_start`.
pub fn scan_run_start(s: &Vec<char>, k: CharClass, j: usize) -> (r: usize)
    requires
        j <= s.len(),
    ensures
        r == run_start(s@, k, j as int),
        r <= j,
{
    let mut m = j;
    while m > 0 && class_has(s[m - 1], k)
        invariant
            m <= j <= s.len(),
            run_start(s@, k, j as int) == run_start(s@, k, m as int),
        decreases m,
    {
        m = m - 1;
    }
    m
}

/// A copy of `s[a..b]`.
pub fn slice_of(s: &Vec<char>, a: usize, b: usize) -> (r: Vec<char>)
    requires
        a <= b <= s.len(),
    ensures
        r@ == s@.subrange(a as int, b as int),
{
    let mut out: Vec<char> = Vec::new();
    let mut i = a;
    while i < b
        invariant
            a <= i <= b <= s.len(),
            out@ == s@.subrange(a as int, i as int),
        decreases b - i,
    {
        out.push(s[i]);
        i = i + 1;
        assert(out@ =~= s@.subrange(a as int, i as int));
    }
    out
}

pub fn trim_start_chars(s: &Vec<char>) -> (r: Vec<char>)
    ensures
        r@ == trim_start(s@),
{
    let a = scan_run_end(s, CharClass::Space, 0);
    slice_of(s, a, s.len())
}

pub fn trim_end_class_chars(s: &Vec<char>, k: CharClass) -> (r: Vec<char>)
    ensures
        r@ == trim_end_class(s@, k),
{
    let b = scan_run_start(s, k, s.len());
    slice_of(s, 0, b)
}

pub fn trim_chars(s: &Vec<char>) -> (r: Vec<char>)
    ensures
        r@ == trim(s@),
{
    let t = trim_start_chars(s);
    trim_end_class_chars(&t, CharClass::Space)
}

/// A line without its final carriage return, if it has one.
pub open spec fn strip_cr(l: Seq<char>) -> Seq<char> {
    if l.len() > 0 && l.last() == '\r' {
        l.drop_last()
    } else {
        l
    }
}

/// The lines of `s[i..]` as `str::lines` yields them: split at each `'\n'`,
/// a line that ended in `"\r\n"` loses the `'\r'` too, and a final line
/// ending does not open an empty last line.
pub open spec fn lines_from(s: Seq<char>, i: int) -> Seq<Seq<char>>
    decreases s.len() - i,
{
    if i < 0 || i >= s.len() {
        seq![]
    } else {
        let e = run_end(s, CharClass::NonNewline, i);
        proof {
            lemma_run_end(s, CharClass::NonNewline, i);
        }
        if e >= s.len() {
            seq![s.subrange(i, s.len() as int)]
        } else {
            seq![strip_cr(s.subrange(i, e))] + lines_from(s, e + 1)
        }
    }
}

pub open spec fn lines(s: Seq<char>) -> Seq<Seq<char>> {
    lines_from(s, 0)
}

/// The white-space separated words of `s[i..]` (`str::split_whitespace`).
pub open spec fn words_from(s: Seq<char>, i: int) -> Seq<Seq<char>>
    decreases s.len() - i,
{
    if i < 0 || i > s.len() {
        seq![]
    } else {
        let a = run_end(s, CharClass::Space, i);
        proof {
            lemma_run_end(s, CharClass::Space, i);
        }
        if a >= s.len() {
            seq![]
        } else {
            let b = run_end(s, CharClass::NonSpace, a);
            proof {
                lemma_run_end(s, CharClass::NonSpace, a);
            }
            seq![s.subrange(a, b)] + words_from(s, b)
        }
    }
}

pub open spec fn words(s: Seq<char>) -> Seq<Seq<char>> {
    words_from(s, 0)
}

/// A run over `x` with one more character `c` behind it ends where the run
/// over `x` ends, unless it reached the end of `x`; then `c` decides.
pub proof fn lemma_run_end_push(x: Seq<char>, c: char, k: CharClass, j: int)
    requires
        0 <= j <= x.len(),
    ensures
        run_end(x.push(c), k, j) == (if run_end(x, k, j) < x.len() {
            run_end(x, k, j)
        } else if in_class(c, k) {
            x.len() + 1int
        } else {
            x.len() as int
        }),
    decreases x.len() - j,
{
    let xc = x.push(c);
    if j < x.len() {
        assert(xc[j] == x[j]);
        if in_class(x[j], k) {
            lemma_run_end_push(x, c, k, j + 1);
        }
    } else {
        assert(xc[j] == c);
        if in_class(c, k) {
            assert(run_end(xc, k, j + 1) == j + 1);
        }
    }
}

/// A run that ends inside `x` ends at the same place when more text follows.
pub proof fn lemma_run_end_append(x: Seq<char>, y: Seq<char>, k: CharClass, j: int)
    requires
        0 <= j <= x.len(),
        run_end(x, k, j) < x.len(),
    ensures
        run_end(x + y, k, j) == run_end(x, k, j),
    decreases x.len() - j,
{
    let xy = x + y;
    assert(xy[j] == x[j]);
    if in_class(x[j], k) {
        lemma_run_end_append(x, y, k, j + 1);
    }
}

/// Runs over `y` are found at the same offsets behind a prefix `p`.
pub proof fn lemma_run_end_shift(p: Seq<char>, y: Seq<char>, k: CharClass, i: int)
    requires
        0 <= i <= y.len(),
    ensures
        run_end(p + y, k, p.len() + i) == p.len() + run_end(y, k, i),
    decreases y.len() - i,
{
    if i < y.len() {
        assert((p + y)[p.len() + i] == y[i]);
        if in_class(y[i], k) {
            lemma_run_end_shift(p, y, k, i + 1);
        }
    }
}

/// The lines of `y` are the same behind a prefix `p`.
pub proof fn lemma_lines_shift(p: Seq<char>, y: Seq<char>, i: int)
    requires
        0 <= i <= y.len(),
    ensures
        lines_from(p + y, p.len() + i) == lines_from(y, i),
    decreases y.len() - i,
{
    let s = p + y;
    if i < y.len() {
        let e = run_end(y, CharClass::NonNewline, i);
        lemma_run_end(y, CharClass::NonNewline, i);
        lemma_run_end_shift(p, y, CharClass::NonNewline, i);
        assert(s.subrange(p.len() + i, p.len() + e) =~= y.subrange(i, e));
        assert(s.subrange(p.len() + i, s.len() as int) =~= y.subrange(i, y.len() as int));
        if e < y.len() {
            lemma_lines_shift(p, y, e + 1);
        }
    }
}

proof fn lemma_lines_concat_from(p: Seq<char>, q: Seq<char>, i: int)
    requires
        0 <= i <= p.len() + 1,
    ensures
        lines_from(p.push('\n') + q, i) == lines_from(p.push('\n'), i) + lines(q),
    decreases p.len() + 1 - i,
{
    let t = p.push('\n');
    let s = t + q;
    if i == p.len() + 1 {
        lemma_lines_shift(t, q, 0);
        assert(lines_from(t, i) =~= seq![]);
        assert(seq![] + lines(q) =~= lines(q));
    } else {
        lemma_run_end(p, CharClass::NonNewline, i);
        lemma_run_end_push(p, '\n', CharClass::NonNewline, i);
        let e = run_end(t, CharClass::NonNewline, i);
        lemma_run_end_append(t, q, CharClass::NonNewline, i);
        assert(s.subrange(i, e) =~= t.subrange(i, e));
        lemma_lines_concat_from(p, q, e + 1);
        assert(lines_from(s, i) == seq![strip_cr(t.subrange(i, e))] + lines_from(s, e + 1));
        assert(lines_from(t, i) == seq![strip_cr(t.subrange(i, e))] + lines_from(t, e + 1));
        assert(seq![strip_cr(t.subrange(i, e))] + (lines_from(t, e + 1) + lines(q)) =~= (seq![
            strip_cr(t.subrange(i, e)),
        ] + lines_from(t, e + 1)) + lines(q));
    }
}

/// Text joined at a newline has the lines of its two sides.
pub proof fn lemma_lines_concat(p: Seq<char>, q: Seq<char>)
    ensures
        lines(p.push('\n') + q) == lines(p.push('\n')) + lines(q),
{
    lemma_lines_concat_from(p, q, 0);
}

/// A single line ended by a newline.
pub proof fn lemma_lines_single(h: Seq<char>)
    requires
        forall|j: int| 0 <= j < h.len() ==> h[j] != '\n',
    ensures
        lines(h.push('\n')) == seq![strip_cr(h)],
{
    let t = h.push('\n');
    lemma_run_end(h, CharClass::NonNewline, 0);
    if run_end(h, CharClass::NonNewline, 0) < h.len() {
        assert(h[run_end(h, CharClass::NonNewline, 0)] != '\n');
    }
    lemma_run_end_push(h, '\n', CharClass::NonNewline, 0);
    assert(t.subrange(0, h.len() as int) =~= h);
    assert(lines_from(t, h.len() + 1int) =~= seq![]);
    assert(seq![strip_cr(h)] + seq![] =~= seq![strip_cr(h)]);
}

proof fn lemma_words_push_space_from(x: Seq<char>, c: char, i: int)
    requires
        is_space(c),
        0 <= i <= x.len(),
    ensures
        words_from(x.push(c), i) == words_from(x, i),
    decreases x.len() - i,
{
    let xc = x.push(c);
    lemma_run_end(x, CharClass::Space, i);
    lemma_run_end_push(x, c, CharClass::Space, i);
    let a = run_end(x, CharClass::Space, i);
    if a < x.len() {
        lemma_run_end(x, CharClass::NonSpace, a);
        lemma_run_end_push(x, c, CharClass::NonSpace, a);
        let b = run_end(x, CharClass::NonSpace, a);
        assert(xc.subrange(a, b) =~= x.subrange(a, b));
        lemma_words_push_space_from(x, c, b);
    }
}

/// A trailing white-space character does not change the words.
pub proof fn lemma_words_push_space(x: Seq<char>, c: char)
    requires
        is_space(c),
    ensures
        words(x.push(c)) == words(x),
{
    lemma_words_push_space_from(x, c, 0);
}

/// Dropping a final carriage return does not change the words.
pub proof fn lemma_words_strip_cr(l: Seq<char>)
    ensures
        words(strip_cr(l)) == words(l),
{
    if l.len() > 0 && l.last() == '\r' {
        assert(l.drop_last().push('\r') =~= l);
        lemma_words_push_space(l.drop_last(), '\r');
    }
}

/// Text that neither starts nor ends with white space is its own trim.
pub proof fn lemma_trim_fixed(k: Seq<char>)
    requires
        k.len() == 0 || (!is_space(k[0]) && !is_space(k.last())),
    ensures
        trim(k) == k,
{
    if k.len() > 0 {
        assert(run_end(k, CharClass::Space, 0) == 0);
        assert(trim_start(k) =~= k);
        assert(run_start(k, CharClass::Space, k.len() as int) == k.len());
    } else {
        assert(trim_start(k) =~= k);
    }
    assert(trim(k) =~= k);
}

/// A run over characters that are all in the class reaches the end.
pub proof fn lemma_run_end_all(s: Seq<char>, k: CharClass, i: int)
    requires
        0 <= i <= s.len(),
        forall|j: int| i <= j < s.len() ==> in_class(#[trigger] s[j], k),
    ensures
        run_end(s, k, i) == s.len(),
{
    lemma_run_end(s, k, i);
}

/// Text without a newline is one line, or none when empty.
pub proof fn lemma_lines_of_line(l: Seq<char>)
    requires
        forall|j: int| 0 <= j < l.len() ==> l[j] != '\n',
    ensures
        lines(l) == (if l.len() == 0 {
            Seq::<Seq<char>>::empty()
        } else {
            seq![l]
        }),
{
    if l.len() > 0 {
        lemma_run_end_all(l, CharClass::NonNewline, 0);
        assert(l.subrange(0, l.len() as int) =~= l);
    }
}

/// The decimal numeral of a number is a non-empty string of digits that
/// denotes it.
pub proof fn lemma_nat_decimal(n: nat)
    ensures
        nat_decimal(n).len() > 0,
        all_digits(nat_decimal(n)),
        digits_value(nat_decimal(n)) == n,
    decreases n,
{
    if n < 10 {
        let d = nat_decimal(n);
        assert(d.drop_last() =~= seq![]);
        assert(digit_char(n) as int == n + 48);
        assert(digits_value(d) == digits_value(d.drop_last()) * 10 + digit_value(d.last()));
    } else {
        lemma_nat_decimal(n / 10);
        let d = nat_decimal(n);
        assert(d.drop_last() =~= nat_decimal(n / 10));
        assert(digit_char(n % 10) as int == n % 10 + 48);
        assert(d.last() == digit_char(n % 10));
        assert(n == (n / 10) * 10 + n % 10) by (nonlinear_arith);
        assert(digits_value(d) == digits_value(nat_decimal(n / 10)) * 10 + digit_value(d.last()));
        assert forall|i: int| 0 <= i < d.len() implies is_digit(#[trigger] d[i]) by {
            if i < d.len() - 1 {
                assert(d[i] == nat_decimal(n / 10)[i]);
            }
        }
    }
}

/// Reading back the numeral that an `i32` is written as gives the `i32`:
/// `to_string` and `parse` undo each other.
pub proof fn law_decimal_round_trip(v: i32)
    ensures
        parse_i32(int_decimal(v as int)) == Some(v),
{
    let s = int_decimal(v as int);
    if v < 0 {
        let m = (-(v as int)) as nat;
        lemma_nat_decimal(m);
        assert(s.drop_first() =~= nat_decimal(m));
    } else {
        lemma_nat_decimal(v as nat);
        assert(is_digit(s[0]));
    }
}

/// The numeral of an `i32` has no white space in it.
pub proof fn lemma_decimal_no_space(v: int)
    ensures
        int_decimal(v).len() > 0,
        forall|j: int| 0 <= j < int_decimal(v).len() ==> !is_space(#[trigger] int_decimal(v)[j]),
{
    let s = int_decimal(v);
    if v < 0 {
        lemma_nat_decimal((-v) as nat);
        assert forall|j: int| 0 <= j < s.len() implies !is_space(#[trigger] s[j]) by {
            if j > 0 {
                assert(s[j] == nat_decimal((-v) as nat)[j - 1]);
                assert(is_digit(nat_decimal((-v) as nat)[j - 1]));
            }
        }
    } else {
        lemma_nat_decimal(v as nat);
        assert forall|j: int| 0 <= j < s.len() implies !is_space(#[trigger] s[j]) by {
            assert(is_digit(s[j]));
        }
    }
}

/// The views of a sequence of strings.
pub open spec fn string_views(v: Seq<String>) -> Seq<Seq<char>> {
    Seq::new(v.len(), |i: int| v[i]@)
}

/// The views of a sequence of character vectors.
pub open spec fn views(v: Seq<Vec<char>>) -> Seq<Seq<char>> {
    Seq::new(v.len(), |i: int| v[i]@)
}

pub fn lines_of(s: &Vec<char>) -> (r: Vec<Vec<char>>)
    ensures
        views(r@) == lines(s@),
{
    let mut out: Vec<Vec<char>> = Vec::new();
    let mut i: usize = 0;
    while i < s.len()
        invariant
            i <= s.len(),
            lines(s@) == views(out@) + lines_from(s@, i as int),
        decreases s.len() - i,
    {
        let e = scan_run_end(s, CharClass::NonNewline, i);
        let ghost old_out = views(out@);
        if e >= s.len() {
            let l = slice_of(s, i, s.len());
            out.push(l);
            assert(views(out@) =~= old_out + lines_from(s@, i as int));
            i = s.len();
            assert(lines_from(s@, i as int) =~= seq![]);
        } else {
            let mut l = slice_of(s, i, e);
            if l.len() > 0 && l[l.len() - 1] == '\r' {
                l.pop();
            }
            assert(l@ == strip_cr(s@.subrange(i as int, e as int)));
            out.push(l);
            assert(views(out@) =~= old_out + seq![strip_cr(s@.subrange(i as int, e as int))]);
            i = e + 1;
        }
    }
    assert(lines_from(s@, i as int) =~= seq![]);
    assert(views(out@) + seq![] =~= views(out@));
    out
}

pub fn words_of(s: &Vec<char>) -> (r: Vec<Vec<char>>)
    ensures
        views(r@) == words(s@),
{
    let mut out: Vec<Vec<char>> = Vec::new();
    let mut i: usize = 0;
    loop
        invariant
            i <= s.len(),
            words(s@) == views(out@) + words_from(s@, i as int),
        decreases s.len() - i,
    {
        let a = scan_run_end(s, CharClass::Space, i);
        if a >= s.len() {
            assert(words_from(s@, i as int) =~= seq![]);
            assert(views(out@) + seq![] =~= views(out@));
            return out;
        }
        let b = scan_run_end(s, CharClass::NonSpace, a);
        proof {
            lemma_run_end(s@, CharClass::NonSpace, a as int);
        }
        let ghost old_out = views(out@);
        let w = slice_of(s, a, b);
        out.push(w);
        assert(views(out@) =~= old_out + seq![s@.subrange(a as int, b as int)]);
        i = b;
    }
}

pub open spec fn all_digits(s: Seq<char>) -> bool {
    forall|i: int| 0 <= i < s.len() ==> is_digit(#[trigger] s[i])
}

pub open spec fn digit_value(c: char) -> int {
    c as int - '0' as int
}

/// The number that a string of decimal digits denotes.
pub open spec fn digits_value(s: Seq<char>) -> int
    decreases s.len(),
{
    if s.len() == 0 {
        0
    } else {
        digits_value(s.drop_last()) * 10 + digit_value(s.last())
    }
}

/// An unsigned decimal numeral as `str::parse` reads it: an optional `'+'`,
/// then one or more ASCII digits.
pub open spec fn parse_unsigned(s: Seq<char>) -> Option<int> {
    let body = if s.len() > 0 && s[0] == '+' {
        s.drop_first()
    } else {
        s
    };
    if body.len() > 0 && all_digits(body) {
        Some(digits_value(body))
    } else {
        None
    }
}

/// A signed decimal numeral: `'-'` followed by digits, or an unsigned numeral.
pub open spec fn parse_signed(s: Seq<char>) -> Option<int> {
    if s.len() > 0 && s[0] == '-' {
        let body = s.drop_first();
        if body.len() > 0 && all_digits(body) {
            Some(-digits_value(body))
        } else {
            None
        }
    } else {
        parse_unsigned(s)
    }
}

/// `str::parse::<i32>`: `Some` exactly when the numeral is well formed and in range.
pub open spec fn parse_i32(s: Seq<char>) -> Option<i32> {
    match parse_signed(s) {
        Some(v) => if i32::MIN <= v <= i32::MAX {
            Some(v as i32)
        } else {
            None
        },
        None => None,
    }
}

/// `str::parse::<u16>`.
pub open spec fn parse_u16(s: Seq<char>) -> Option<u16> {
    match parse_unsigned(s) {
        Some(v) => if v <= u16::MAX {
            Some(v as u16)
        } else {
            None
        },
        None => None,
    }
}

/// `str::parse::<u64>`.
pub open spec fn parse_u64(s: Seq<char>) -> Option<u64> {
    match parse_unsigned(s) {
        Some(v) => if v <= u64::MAX {
            Some(v as u64)
        } else {
            None
        },
        None => None,
    }
}

pub proof fn lemma_digits_value_nonneg(s: Seq<char>)
    requires
        all_digits(s),
    ensures
        digits_value(s) >= 0,
    decreases s.len(),
{
    if s.len() > 0 {
        lemma_digits_value_nonneg(s.drop_last());
    }
}

/// Appending digits never makes the number smaller.
pub proof fn lemma_digits_value_prefix(s: Seq<char>, k: int)
    requires
        all_digits(s),
        0 <= k <= s.len(),
    ensures
        digits_value(s.take(k)) <= digits_value(s),
    decreases s.len(),
{
    if k < s.len() {
        assert(s.drop_last().take(k) =~= s.take(k));
        lemma_digits_value_prefix(s.drop_last(), k);
        lemma_digits_value_nonneg(s.drop_last());
    } else {
        assert(s.take(k) =~= s);
    }
}

/// The value of the digits `s[a..b]`, or `None` when one is not a digit,
/// the range is empty, or the value exceeds `u64::MAX`.
pub fn digits_in(s: &Vec<char>, a: usize, b: usize) -> (r: Option<u64>)
    requires
        a <= b <= s.len(),
    ensures
        ({
            let body = s@.subrange(a as int, b as int);
            r == (if body.len() > 0 && all_digits(body) && digits_value(body) <= u64::MAX {
                Some(digits_value(body) as u64)
            } else {
                None
            })
        }),
{
    let ghost body = s@.subrange(a as int, b as int);
    if a == b {
        return None;
    }
    let mut acc: u64 = 0;
    let mut i = a;
    while i < b
        invariant
            a <= i <= b <= s.len(),
            body == s@.subrange(a as int, b as int),
            all_digits(body.take(i - a)),
            acc == digits_value(body.take(i - a)),
        decreases b - i,
    {
        let c = s[i];
        if !('0' <= c && c <= '9') {
            assert(!is_digit(body[i - a]));
            return None;
        }
        let d = (c as u32 - '0' as u32) as u64;
        assert(body.take(i - a + 1).drop_last() =~= body.take(i - a));
        assert(all_digits(body.take(i - a + 1)));
        if acc > (u64::MAX - d) / 10 {
            proof {
                assert(digits_value(body.take(i - a + 1)) > u64::MAX);
                if all_digits(body) {
                    lemma_digits_value_prefix(body, i - a + 1);
                }
            }
            return None;
        }
        acc = acc * 10 + d;
        i = i + 1;
    }
    assert(body.take(b - a) =~= body);
    Some(acc)
}

pub fn parse_u64_chars(s: &Vec<char>) -> (r: Option<u64>)
    ensures
        r == parse_u64(s@),
{
    let start: usize = if s.len() > 0 && s[0] == '+' { 1 } else { 0 };
    assert(s@.subrange(start as int, s.len() as int) =~= (if s@.len() > 0 && s@[0] == '+' {
        s@.drop_first()
    } else {
        s@
    }));
    digits_in(s, start, s.len())
}

pub fn parse_u16_chars(s: &Vec<char>) -> (r: Option<u16>)
    ensures
        r == parse_u16(s@),
{
    let r = parse_u64_chars(s);
    proof {
        match parse_unsigned(s@) {
            Some(v) => {
                assert(v >= 0) by {
                    let body = if s@.len() > 0 && s@[0] == '+' { s@.drop_first() } else { s@ };
                    lemma_digits_value_nonneg(body);
                }
            },
            None => {},
        }
    }
    match r {
        Some(v) => if v <= 65535 {
            Some(v as u16)
        } else {
            None
        },
        None => {
            None
        },
    }
}

pub fn parse_i32_chars(s: &Vec<char>) -> (r: Option<i32>)
    ensures
        r == parse_i32(s@),
{
    if s.len() > 0 && s[0] == '-' {
        assert(s@.subrange(1, s.len() as int) =~= s@.drop_first());
        proof {
            if all_digits(s@.drop_first()) {
                lemma_digits_value_nonneg(s@.drop_first());
            }
        }
        match digits_in(s, 1, s.len()) {
            Some(v) => if v <= 2147483648 {
                Some((0 - (v as i64)) as i32)
            } else {
                None
            },
            None => {
                proof {
                    let body = s@.drop_first();
                    if body.len() > 0 && all_digits(body) {
                        lemma_digits_value_nonneg(body);
                    }
                }
                None
            },
        }
    } else {
        let r = parse_u64_chars(s);
        proof {
            match parse_unsigned(s@) {
                Some(v) => {
                    assert(v >= 0) by {
                        let body = if s@.len() > 0 && s@[0] == '+' { s@.drop_first() } else { s@ };
                        lemma_digits_value_nonneg(body);
                    }
                },
                None => {},
            }
        }
        match r {
            Some(v) => if v <= 2147483647 {
                Some(v as i32)
            } else {
                None
            },
            None => {
                None
            },
        }
    }
}

pub open spec fn digit_char(d: nat) -> char {
    (d + 48) as char
}

/// The shortest decimal numeral of `n`.
pub open spec fn nat_decimal(n: nat) -> Seq<char>
    decreases n,
{
    if n < 10 {
        seq![digit_char(n)]
    } else {
        nat_decimal(n / 10).push(digit_char(n % 10))
    }
}

/// The numeral that `i32::to_string` writes.
pub open spec fn int_decimal(v: int) -> Seq<char> {
    if v < 0 {
        seq!['-'] + nat_decimal((-v) as nat)
    } else {
        nat_decimal(v as nat)
    }
}

pub fn u64_decimal(n: u64) -> (r: Vec<char>)
    ensures
        r@ == nat_decimal(n as nat),
    decreases n,
{
    let d = (n % 10) as u8;
    let c = (d + 48) as char;
    if n < 10 {
        let mut v: Vec<char> = Vec::new();
        v.push(c);
        assert(v@ =~= seq![digit_char(n as nat)]);
        v
    } else {
        let mut v = u64_decimal(n / 10);
        v.push(c);
        v
    }
}

pub fn i32_decimal(v: i32) -> (r: Vec<char>)
    ensures
        r@ == int_decimal(v as int),
{
    if v < 0 {
        let n = (0 - (v as i64)) as u64;
        let digits = u64_decimal(n);
        let mut out: Vec<char> = Vec::new();
        out.push('-');
        let mut i: usize = 0;
        while i < digits.len()
            invariant
                i <= digits.len(),
                out@ == seq!['-'] + digits@.take(i as int),
            decreases digits.len() - i,
        {
            out.push(digits[i]);
            i = i + 1;
            assert(out@ =~= seq!['-'] + digits@.take(i as int));
        }
        assert(digits@.take(i as int) =~= digits@);
        out
    } else {
        u64_decimal(v as u64)
    }
}

/// `parts` joined with `sep` between neighbours (`[&str]::join`).
pub open spec fn join(parts: Seq<Seq<char>>, sep: Seq<char>) -> Seq<char>
    decreases parts.len(),
{
    if parts.len() == 0 {
        seq![]
    } else if parts.len() == 1 {
        parts[0]
    } else {
        join(parts.drop_last(), sep) + sep + parts.last()
    }
}

pub fn append_chars(out: &mut Vec<char>, add: &Vec<char>)
    ensures
        final(out)@ == old(out)@ + add@,
{
    let ghost start = out@;
    let mut i: usize = 0;
    while i < add.len()
        invariant
            i <= add.len(),
            out@ == start + add@.take(i as int),
        decreases add.len() - i,
    {
        out.push(add[i]);
        i = i + 1;
        assert(out@ =~= start + add@.take(i as int));
    }
    assert(add@.take(i as int) =~= add@);
}

/// `parts[a..b]` joined with `sep`.
pub fn join_range(parts: &Vec<Vec<char>>, a: usize, b: usize, sep: &Vec<char>) -> (r: Vec<char>)
    requires
        a <= b <= parts.len(),
    ensures
        r@ == join(views(parts@).subrange(a as int, b as int), sep@),
{
    let mut out: Vec<char> = Vec::new();
    let mut i = a;
    while i < b
        invariant
            a <= i <= b <= parts.len(),
            out@ == join(views(parts@).subrange(a as int, i as int), sep@),
        decreases b - i,
    {
        let ghost before = views(parts@).subrange(a as int, i as int);
        let ghost after = views(parts@).subrange(a as int, i as int + 1);
        assert(after.drop_last() =~= before);
        if i > a {
            append_chars(&mut out, sep);
        }
        append_chars(&mut out, &parts[i]);
        i = i + 1;
        proof {
            if before.len() == 0 {
                assert(out@ =~= after[0]);
            }
        }
    }
    out
}

pub open spec fn starts_with(s: Seq<char>, p: Seq<char>) -> bool {
    p.len() <= s.len() && s.take(p.len() as int) == p
}

/// Whether `needle` occurs in `hay` (`str::contains`).
pub open spec fn contains(hay: Seq<char>, needle: Seq<char>) -> bool {
    exists|i: int| 0 <= i <= hay.len() - needle.len() && #[trigger] hay.subrange(i, i + needle.len()) == needle
}

/// Whether `needle` occurs in `hay` at position `i`.
pub fn occurs_at(hay: &Vec<char>, needle: &Vec<char>, i: usize) -> (b: bool)
    requires
        i + needle.len() <= hay.len(),
    ensures
        b == (hay@.subrange(i as int, i + needle.len()) == needle@),
{
    let mut j: usize = 0;
    while j < needle.len()
        invariant
            i + needle.len() <= hay.len(),
            j <= needle.len(),
            hay@.subrange(i as int, i + j) == needle@.take(j as int),
        decreases needle.len() - j,
    {
        if hay[i + j] != needle[j] {
            assert(hay@.subrange(i as int, i + needle.len())[j as int] != needle@[j as int]);
            return false;
        }
        j = j + 1;
        assert(hay@.subrange(i as int, i + j) =~= needle@.take(j as int));
    }
    assert(needle@.take(j as int) =~= needle@);
    true
}

pub fn starts_with_chars(s: &Vec<char>, p: &Vec<char>) -> (b: bool)
    ensures
        b == starts_with(s@, p@),
{
    if p.len() > s.len() {
        return false;
    }
    assert(s@.subrange(0, p.len() as int) =~= s@.take(p.len() as int));
    occurs_at(s, p, 0)
}

pub fn contains_chars(hay: &Vec<char>, needle: &Vec<char>) -> (b: bool)
    ensures
        b == contains(hay@, needle@),
{
    if needle.len() > hay.len() {
        return false;
    }
    if needle.len() == 0 {
        assert(hay@.subrange(0, 0 + needle.len()) =~= needle@);
        return true;
    }
    let last = hay.len() - needle.len();
    let mut i: usize = 0;
    while i <= last
        invariant
            last + needle.len() == hay.len(),
            needle.len() >= 1,
            i <= last + 1,
            forall|k: int| 0 <= k < i ==> #[trigger] hay@.subrange(k, k + needle.len()) != needle@,
        decreases last + 1 - i,
    {
        if occurs_at(hay, needle, i) {
            return true;
        }
        i = i + 1;
    }
    false
}

/// The characters of a string slice, in order.
pub fn chars_of(s: &str) -> (r: Vec<char>)
    ensures
        r@ == s@,
{
    let mut out: Vec<char> = Vec::new();
    for c in it: s.chars()
        invariant
            out@ == it.seq().take(it.index() as int),
            it.seq() == s@,
    {
        out.push(c);
    }
    out
}

/// An owned copy of a string slice.
pub fn owned(lit: &str) -> (r: String)
    ensures
        r@ == lit@,
{
    lit.to_owned()
}

/// `head` followed by the characters of `tail`.
pub fn prefixed(head: &str, tail: &Vec<char>) -> (r: String)
    ensures
        r@ == head@ + tail@,
{
    let mut c = chars_of(head);
    append_chars(&mut c, tail);
    string_of(&c)
}

/// A `String` holding exactly the given characters
/// (`String: FromIterator<&char>`).
#[verifier::external_body]
pub fn string_of(v: &Vec<char>) -> (r: String)
    ensures
        r@ == v@,
{
    v.iter().collect()
}

} // verus!
