//! The state of the systemd service, read from the output of
//! `systemctl show <service> --property=ActiveState --property=SubState --property=MainPID`.
//!
//! The output is read line by line, as `str::lines` splits it: at `\n`, with a
//! `\r` before the `\n` dropped. A line with an `=` assigns the text after the
//! first `=` to the property named before it; a later assignment of a property
//! replaces an earlier one. `MainPID` must be a decimal `u32`; a process id of
//! 0 means that no process runs and leaves the process id as it was. Lines of
//! other properties, and lines without `=`, change nothing.
use vstd::prelude::*;

verus! {

/// The state of the service.
pub struct ServiceStatus {
    pub active_state: String,
    pub sub_state: String,
    pub main_pid: Option<u32>,
}

/// The mathematical value of a [`ServiceStatus`].
pub struct ServiceStatusView {
    pub active_state: Seq<char>,
    pub sub_state: Seq<char>,
    pub main_pid: Option<u32>,
}

impl View for ServiceStatus {
    type V = ServiceStatusView;

    open spec fn view(&self) -> ServiceStatusView {
        ServiceStatusView {
            active_state: self.active_state@,
            sub_state: self.sub_state@,
            main_pid: self.main_pid,
        }
    }
}

/// Why the output could not be read.
pub enum StatusError {
    /// The value of `MainPID` is not a decimal `u32`.
    InvalidMainPid(String),
}

/// The index of the first `c` in `s` at or after `start`, or the length of `s`.
pub open spec fn find_from(s: Seq<char>, c: char, start: int) -> int
    decreases s.len() - start,
{
    if start >= s.len() {
        s.len() as int
    } else if s[start] == c {
        start
    } else {
        find_from(s, c, start + 1)
    }
}

pub proof fn lemma_find_from_bounds(s: Seq<char>, c: char, start: int)
    ensures
        start <= s.len() ==> start <= find_from(s, c, start) <= s.len(),
        start <= find_from(s, c, start) < s.len() ==> s[find_from(s, c, start)] == c,
    decreases s.len() - start,
{
    if start < s.len() && s[start] != c {
        lemma_find_from_bounds(s, c, start + 1);
    }
}

/// The lines of `s` from index `start` on, as `str::lines` yields them: split
/// at `\n`, with a `\r` just before a `\n` dropped, and no empty line after a
/// final `\n`.
pub open spec fn lines_from(s: Seq<char>, start: nat) -> Seq<Seq<char>>
    decreases s.len() + 1 - start,
    via lines_from_decreases
{
    if start >= s.len() {
        Seq::empty()
    } else {
        let end = find_from(s, '\n', start as int);
        let raw = s.subrange(start as int, end);
        let line = if end < s.len() && raw.len() > 0 && raw.last() == '\r' {
            raw.drop_last()
        } else {
            raw
        };
        seq![line] + lines_from(s, (end + 1) as nat)
    }
}

#[via_fn]
proof fn lines_from_decreases(s: Seq<char>, start: nat) {
    lemma_find_from_bounds(s, '\n', start as int);
}

/// The lines of `s`, as `str::lines` yields them.
pub open spec fn lines(s: Seq<char>) -> Seq<Seq<char>> {
    lines_from(s, 0)
}

pub open spec fn is_ascii_digit(c: char) -> bool {
    ('0' as u32) <= (c as u32) <= ('9' as u32)
}

pub open spec fn digit_value(c: char) -> int {
    (c as u32) - ('0' as u32)
}

/// The number that the decimal digits `d` write.
pub open spec fn digits_value(d: Seq<char>) -> int
    decreases d.len(),
{
    if d.len() == 0 {
        0
    } else {
        digits_value(d.drop_last()) * 10 + digit_value(d.last())
    }
}

/// Whether `d` is made of decimal digits only.
pub open spec fn all_digits(d: Seq<char>) -> bool {
    forall|i: int| 0 <= i < d.len() ==> is_ascii_digit(#[trigger] d[i])
}

/// `s` without the `+` sign that it may start with.
pub open spec fn unsigned_digits(s: Seq<char>) -> Seq<char> {
    if s.len() > 0 && s[0] == '+' {
        s.drop_first()
    } else {
        s
    }
}

/// The `u32` that `s` writes, as `str::parse::<u32>` reads it: an optional `+`,
/// then one or more decimal digits, of a value that fits.
pub open spec fn parse_u32(s: Seq<char>) -> Option<u32> {
    let d = unsigned_digits(s);
    if d.len() > 0 && all_digits(d) && digits_value(d) <= u32::MAX {
        Some(digits_value(d) as u32)
    } else {
        None
    }
}

/// The state before any line is read: empty states and no process id.
pub open spec fn initial_status() -> ServiceStatusView {
    ServiceStatusView { active_state: Seq::empty(), sub_state: Seq::empty(), main_pid: None }
}

/// The state after reading `line` on top of `st`; the error is the `MainPID`
/// value that is not a `u32`.
pub open spec fn apply_line(st: ServiceStatusView, line: Seq<char>) -> Result<
    ServiceStatusView,
    Seq<char>,
> {
    let k = find_from(line, '=', 0);
    if k >= line.len() {
        Ok(st)
    } else {
        let key = line.take(k);
        let value = line.skip(k + 1);
        if key == "ActiveState"@ {
            Ok(ServiceStatusView { active_state: value, ..st })
        } else if key == "SubState"@ {
            Ok(ServiceStatusView { sub_state: value, ..st })
        } else if key == "MainPID"@ {
            match parse_u32(value) {
                Some(pid) => if pid != 0 {
                    Ok(ServiceStatusView { main_pid: Some(pid), ..st })
                } else {
                    Ok(st)
                },
                None => Err(value),
            }
        } else {
            Ok(st)
        }
    }
}

/// The state after reading `lines` in order on top of `st`, or the first
/// `MainPID` value that is not a `u32`.
pub open spec fn apply_lines(st: ServiceStatusView, lines: Seq<Seq<char>>) -> Result<
    ServiceStatusView,
    Seq<char>,
>
    decreases lines.len(),
{
    if lines.len() == 0 {
        Ok(st)
    } else {
        match apply_line(st, lines[0]) {
            Ok(next) => apply_lines(next, lines.drop_first()),
            Err(value) => Err(value),
        }
    }
}

/// The state of the service that `output` reports.
pub open spec fn service_status_of(output: Seq<char>) -> Result<ServiceStatusView, Seq<char>> {
    apply_lines(initial_status(), lines(output))
}

/// Whether reading `line` changes nothing: it has no `=`, or the name before
/// its first `=` is none of `ActiveState`, `SubState` and `MainPID`.
pub open spec fn is_inert_line(line: Seq<char>) -> bool {
    let k = find_from(line, '=', 0);
    k >= line.len() || {
        let key = line.take(k);
        key != "ActiveState"@ && key != "SubState"@ && key != "MainPID"@
    }
}

/// Whether `s` is empty or ends a line, so that text appended to it starts a new line.
pub open spec fn ends_a_line(s: Seq<char>) -> bool {
    s.len() == 0 || s.last() == '\n'
}

proof fn lemma_find_from_le(s: Seq<char>, c: char, start: int, j: int)
    requires
        start <= j < s.len(),
        s[j] == c,
    ensures
        find_from(s, c, start) <= j,
    decreases j - start,
{
    if s[start] != c {
        lemma_find_from_le(s, c, start + 1, j);
    }
}

proof fn lemma_find_from_prefix(a: Seq<char>, b: Seq<char>, c: char, start: int)
    requires
        0 <= start,
        find_from(a, c, start) < a.len(),
    ensures
        find_from(a + b, c, start) == find_from(a, c, start),
    decreases a.len() - start,
{
    if start < a.len() && a[start] != c {
        lemma_find_from_prefix(a, b, c, start + 1);
    }
}

proof fn lemma_find_from_shift(a: Seq<char>, b: Seq<char>, c: char, k: int)
    requires
        0 <= k,
    ensures
        find_from(a + b, c, a.len() + k) == a.len() + find_from(b, c, k),
    decreases b.len() - k,
{
    if k < b.len() {
        assert((a + b)[a.len() + k] == b[k]);
        if b[k] != c {
            lemma_find_from_shift(a, b, c, k + 1);
        }
    }
}

/// The lines of `a + b` after `a` are the lines of `b`.
proof fn lemma_lines_shift(a: Seq<char>, b: Seq<char>, k: nat)
    ensures
        lines_from(a + b, a.len() + k) == lines_from(b, k),
    decreases b.len() + 1 - k,
{
    if k < b.len() {
        let s = a + b;
        let e = find_from(b, '\n', k as int);
        lemma_find_from_shift(a, b, '\n', k as int);
        lemma_find_from_bounds(b, '\n', k as int);
        assert(s.subrange((a.len() + k) as int, a.len() + e) =~= b.subrange(k as int, e));
        lemma_lines_shift(a, b, (e + 1) as nat);
        assert((a.len() + e + 1) as nat == a.len() + (e + 1) as nat);
    }
}

/// When `a` ends a line, the lines of `a + b` are those of `a`, then those of `b`.
proof fn lemma_lines_prefix(a: Seq<char>, b: Seq<char>, start: nat)
    requires
        start <= a.len(),
        ends_a_line(a),
    ensures
        lines_from(a + b, start) == lines_from(a, start) + lines_from(b, 0),
    decreases a.len() - start,
{
    let s = a + b;
    if start == a.len() {
        lemma_lines_shift(a, b, 0);
        assert(lines_from(a, start) + lines_from(b, 0) =~= lines_from(b, 0));
    } else {
        lemma_find_from_le(a, '\n', start as int, a.len() - 1);
        lemma_find_from_bounds(a, '\n', start as int);
        let e = find_from(a, '\n', start as int);
        lemma_find_from_prefix(a, b, '\n', start as int);
        assert(s.subrange(start as int, e) =~= a.subrange(start as int, e));
        lemma_lines_prefix(a, b, (e + 1) as nat);
        let raw = a.subrange(start as int, e);
        let line = if e < a.len() && raw.len() > 0 && raw.last() == '\r' {
            raw.drop_last()
        } else {
            raw
        };
        assert(lines_from(s, start) == seq![line] + lines_from(s, (e + 1) as nat));
        assert(lines_from(a, start) == seq![line] + lines_from(a, (e + 1) as nat));
        assert(seq![line] + (lines_from(a, (e + 1) as nat) + lines_from(b, 0)) =~= (seq![line]
            + lines_from(a, (e + 1) as nat)) + lines_from(b, 0));
    }
}

/// Reading `first + rest` reads `first`, then `rest` from where `first` left off.
proof fn lemma_apply_lines_concat(
    st: ServiceStatusView,
    first: Seq<Seq<char>>,
    rest: Seq<Seq<char>>,
)
    ensures
        apply_lines(st, first + rest) == match apply_lines(st, first) {
            Ok(next) => apply_lines(next, rest),
            Err(value) => Err(value),
        },
    decreases first.len(),
{
    if first.len() == 0 {
        assert(first + rest =~= rest);
    } else {
        assert((first + rest)[0] == first[0]);
        assert((first + rest).drop_first() =~= first.drop_first() + rest);
        match apply_line(st, first[0]) {
            Ok(next) => lemma_apply_lines_concat(next, first.drop_first(), rest),
            Err(_) => {},
        }
    }
}

/// Reading lines that are all inert leaves the state as it was.
proof fn lemma_apply_inert_lines(st: ServiceStatusView, inert: Seq<Seq<char>>)
    requires
        forall|i: int| 0 <= i < inert.len() ==> is_inert_line(#[trigger] inert[i]),
    ensures
        apply_lines(st, inert) == Ok::<ServiceStatusView, Seq<char>>(st),
    decreases inert.len(),
{
    if inert.len() > 0 {
        assert(is_inert_line(inert[0]));
        assert(apply_line(st, inert[0]) == Ok::<ServiceStatusView, Seq<char>>(st));
        lemma_apply_inert_lines(st, inert.drop_first());
    }
}

/// Inserting inert lines anywhere among the lines read leaves the state read,
/// error included, unchanged.
pub proof fn lemma_inserting_inert_lines(
    st: ServiceStatusView,
    before: Seq<Seq<char>>,
    inserted: Seq<Seq<char>>,
    after: Seq<Seq<char>>,
)
    requires
        forall|i: int| 0 <= i < inserted.len() ==> is_inert_line(#[trigger] inserted[i]),
    ensures
        apply_lines(st, before + inserted + after) == apply_lines(st, before + after),
{
    assert(before + inserted + after =~= before + (inserted + after));
    lemma_apply_lines_concat(st, before, inserted + after);
    lemma_apply_lines_concat(st, before, after);
    match apply_lines(st, before) {
        Ok(next) => {
            lemma_apply_lines_concat(next, inserted, after);
            lemma_apply_inert_lines(next, inserted);
        },
        Err(_) => {},
    }
}

proof fn lemma_find_from_absent(s: Seq<char>, c: char, start: int)
    requires
        0 <= start,
        forall|i: int| start <= i < s.len() ==> s[i] != c,
    ensures
        find_from(s, c, start) == s.len(),
    decreases s.len() - start,
{
    if start < s.len() {
        lemma_find_from_absent(s, c, start + 1);
    }
}

/// A text without `\n` is one line, or none when it is empty.
proof fn lemma_lines_of_unterminated(y: Seq<char>)
    requires
        forall|i: int| 0 <= i < y.len() ==> y[i] != '\n',
    ensures
        lines(y) == if y.len() == 0 {
            Seq::<Seq<char>>::empty()
        } else {
            seq![y]
        },
{
    if y.len() > 0 {
        lemma_find_from_absent(y, '\n', 0);
        assert(y.subrange(0, y.len() as int) =~= y);
        assert(lines_from(y, (y.len() + 1) as nat) == Seq::<Seq<char>>::empty());
        assert(seq![y] + Seq::<Seq<char>>::empty() =~= seq![y]);
    }
}

/// A text without `\n` that does not end in `\r`, followed by `\n`, is one line.
proof fn lemma_lines_of_terminated(y: Seq<char>)
    requires
        forall|i: int| 0 <= i < y.len() ==> y[i] != '\n',
        y.len() == 0 || y.last() != '\r',
    ensures
        lines(y.push('\n')) == seq![y],
{
    let s = y.push('\n');
    lemma_find_from_absent(y, '\n', 0);
    lemma_find_from_upto(s, '\n', 0, y.len() as int);
    assert(s.subrange(0, y.len() as int) =~= y);
    assert(lines_from(s, (y.len() + 1) as nat) == Seq::<Seq<char>>::empty());
    assert(seq![y] + Seq::<Seq<char>>::empty() =~= seq![y]);
}

proof fn lemma_find_from_upto(s: Seq<char>, c: char, start: int, j: int)
    requires
        0 <= start <= j < s.len(),
        s[j] == c,
        forall|i: int| start <= i < j ==> s[i] != c,
    ensures
        find_from(s, c, start) == j,
    decreases j - start,
{
    if start < j {
        lemma_find_from_upto(s, c, start + 1, j);
    }
}

/// Inserting inert lines into an output leaves the state read from it,
/// error included, unchanged: `inserted` goes where a line begins (after `a`,
/// which is empty or ends in `\n`), and either ends in `\n` itself or is
/// appended at the very end, where its last line may be unterminated.
pub proof fn lemma_inert_lines_change_nothing(a: Seq<char>, inserted: Seq<char>, b: Seq<char>)
    requires
        ends_a_line(a),
        ends_a_line(inserted) || b.len() == 0,
        forall|i: int|
            0 <= i < lines(inserted).len() ==> is_inert_line(#[trigger] lines(inserted)[i]),
    ensures
        service_status_of(a + inserted + b) == service_status_of(a + b),
{
    let ac = a + inserted;
    let la = lines(a);
    let lc = lines(inserted);
    let lb = lines(b);
    lemma_lines_prefix(a, inserted, 0);
    lemma_lines_prefix(a, b, 0);
    if b.len() == 0 {
        assert(ac + b =~= ac);
        assert(lb =~= Seq::<Seq<char>>::empty());
    } else {
        assert(ends_a_line(ac)) by {
            if inserted.len() == 0 {
                assert(ac =~= a);
            } else {
                assert(ac.last() == inserted.last());
            }
        }
        lemma_lines_prefix(ac, b, 0);
    }
    assert(lines(a + inserted + b) =~= la + lc + lb);
    lemma_inserting_inert_lines(initial_status(), la, lc, lb);
}

/// Appending inert lines after an unterminated last line (one that does not
/// end in `\r`), with the `\n` that ends it, leaves the state read, error
/// included, unchanged.
pub proof fn lemma_inert_lines_after_last_line(a: Seq<char>, y: Seq<char>, inserted: Seq<char>)
    requires
        ends_a_line(a),
        y.len() > 0,
        forall|i: int| 0 <= i < y.len() ==> y[i] != '\n',
        y.last() != '\r',
        forall|i: int|
            0 <= i < lines(inserted).len() ==> is_inert_line(#[trigger] lines(inserted)[i]),
    ensures
        service_status_of(a + y + seq!['\n'] + inserted) == service_status_of(a + y),
{
    let yn = y.push('\n');
    let ayn = a + yn;
    assert(a + y + seq!['\n'] =~= ayn);
    assert(ends_a_line(ayn)) by {
        assert(ayn.last() == '\n');
    }
    lemma_lines_prefix(ayn, inserted, 0);
    lemma_lines_prefix(a, yn, 0);
    lemma_lines_prefix(a, y, 0);
    lemma_lines_of_terminated(y);
    lemma_lines_of_unterminated(y);
    let la = lines(a);
    let lc = lines(inserted);
    assert(lines(a + y + seq!['\n'] + inserted) =~= (la + seq![y]) + lc + Seq::<
        Seq<char>,
    >::empty());
    assert(lines(a + y) =~= (la + seq![y]) + Seq::<Seq<char>>::empty());
    lemma_inserting_inert_lines(initial_status(), la + seq![y], lc, Seq::<Seq<char>>::empty());
}

/// The character of a decimal digit.
pub open spec fn digit_char(d: int) -> char {
    if d == 0 {
        '0'
    } else if d == 1 {
        '1'
    } else if d == 2 {
        '2'
    } else if d == 3 {
        '3'
    } else if d == 4 {
        '4'
    } else if d == 5 {
        '5'
    } else if d == 6 {
        '6'
    } else if d == 7 {
        '7'
    } else if d == 8 {
        '8'
    } else {
        '9'
    }
}

/// The decimal digits of `n`, without leading zeros (`0` for zero).
pub open spec fn decimal(n: nat) -> Seq<char>
    decreases n,
{
    if n < 10 {
        seq![digit_char(n as int)]
    } else {
        decimal(n / 10).push(digit_char((n % 10) as int))
    }
}

/// The decimal digits of `n` are digits, at least one, and write `n`.
pub proof fn lemma_decimal(n: nat)
    ensures
        decimal(n).len() > 0,
        all_digits(decimal(n)),
        digits_value(decimal(n)) == n,
    decreases n,
{
    if n < 10 {
        let d = decimal(n);
        assert(d.drop_last() =~= Seq::<char>::empty());
        assert(digits_value(Seq::<char>::empty()) == 0);
        assert(digit_value(d.last()) == n);
        assert(digits_value(d) == digits_value(d.drop_last()) * 10 + digit_value(d.last()));
    } else {
        lemma_decimal(n / 10);
        let d = decimal(n);
        assert(d.drop_last() =~= decimal(n / 10));
        assert(digit_value(d.last()) == n % 10);
        assert(digits_value(d) == digits_value(d.drop_last()) * 10 + digit_value(d.last()));
        assert((n / 10) * 10 + n % 10 == n);
        assert forall|i: int| 0 <= i < d.len() implies is_ascii_digit(#[trigger] d[i]) by {
            if i < d.len() - 1 {
                assert(d[i] == decimal(n / 10)[i]);
            }
        }
    }
}

/// Every `u32` written in decimal is read back as itself.
pub proof fn lemma_parse_u32_decimal(p: u32)
    ensures
        parse_u32(decimal(p as nat)) == Some(p),
{
    lemma_decimal(p as nat);
    let d = decimal(p as nat);
    assert(is_ascii_digit(d[0]));
    assert(unsigned_digits(d) == d);
}

/// Where `key` has no `=`, the line `key=value` splits at that `=`.
proof fn lemma_split_at_key(key: Seq<char>, value: Seq<char>)
    requires
        forall|i: int| 0 <= i < key.len() ==> key[i] != '=',
    ensures
        ({
            let line = key + seq!['='] + value;
            &&& find_from(line, '=', 0) == key.len()
            &&& line.take(key.len() as int) == key
            &&& line.skip(key.len() as int + 1) == value
        }),
{
    let line = key + seq!['='] + value;
    lemma_find_from_upto(line, '=', 0, key.len() as int);
    assert(line.take(key.len() as int) =~= key);
    assert(line.skip(key.len() as int + 1) =~= value);
}

/// A line `MainPID=` followed by the decimal digits of a process id sets that
/// process id, whatever its size, unless it is 0, which leaves the state as it was.
pub proof fn lemma_main_pid_line(st: ServiceStatusView, pid: u32)
    ensures
        apply_line(st, "MainPID="@ + decimal(pid as nat)) == Ok::<ServiceStatusView, Seq<char>>(
            if pid != 0 {
                ServiceStatusView { main_pid: Some(pid), ..st }
            } else {
                st
            },
        ),
{
    reveal_strlit("MainPID=");
    reveal_strlit("MainPID");
    reveal_strlit("ActiveState");
    reveal_strlit("SubState");
    let key = "MainPID"@;
    let value = decimal(pid as nat);
    assert("MainPID="@ + value =~= key + seq!['='] + value);
    lemma_split_at_key(key, value);
    lemma_parse_u32_decimal(pid);
    assert(key != "ActiveState"@);
    assert(key != "SubState"@);
}

/// A line `ActiveState=value` sets the active state to `value`, whatever it is.
pub proof fn lemma_active_state_line(st: ServiceStatusView, value: Seq<char>)
    ensures
        apply_line(st, "ActiveState="@ + value) == Ok::<ServiceStatusView, Seq<char>>(
            ServiceStatusView { active_state: value, ..st },
        ),
{
    reveal_strlit("ActiveState=");
    reveal_strlit("ActiveState");
    let key = "ActiveState"@;
    assert("ActiveState="@ + value =~= key + seq!['='] + value);
    lemma_split_at_key(key, value);
}

/// A line `SubState=value` sets the sub-state to `value`, whatever it is.
pub proof fn lemma_sub_state_line(st: ServiceStatusView, value: Seq<char>)
    ensures
        apply_line(st, "SubState="@ + value) == Ok::<ServiceStatusView, Seq<char>>(
            ServiceStatusView { sub_state: value, ..st },
        ),
{
    reveal_strlit("SubState=");
    reveal_strlit("SubState");
    reveal_strlit("ActiveState");
    let key = "SubState"@;
    assert("SubState="@ + value =~= key + seq!['='] + value);
    lemma_split_at_key(key, value);
    assert(key != "ActiveState"@);
}

/// The output `MainPID=<pid>\n` reports the process id `pid`, for every
/// nonzero `u32`, and no process for 0.
pub proof fn lemma_main_pid_output(pid: u32)
    ensures
        service_status_of(("MainPID="@ + decimal(pid as nat)).push('\n')) == Ok::<
            ServiceStatusView,
            Seq<char>,
        >(
            ServiceStatusView {
                active_state: Seq::empty(),
                sub_state: Seq::empty(),
                main_pid: if pid != 0 {
                    Some(pid)
                } else {
                    None
                },
            },
        ),
{
    reveal_strlit("MainPID=");
    let line = "MainPID="@ + decimal(pid as nat);
    lemma_decimal(pid as nat);
    assert forall|i: int| 0 <= i < line.len() implies line[i] != '\n' by {
        if i >= 8 {
            assert(line[i] == decimal(pid as nat)[i - 8]);
            assert(is_ascii_digit(decimal(pid as nat)[i - 8]));
        }
    }
    assert(line.last() == decimal(pid as nat).last());
    assert(is_ascii_digit(decimal(pid as nat)[decimal(pid as nat).len() - 1]));
    lemma_lines_of_terminated(line);
    lemma_main_pid_line(initial_status(), pid);
    let ls = lines(line.push('\n'));
    assert(ls == seq![line]);
    assert(ls[0] == line);
    assert(ls.drop_first() =~= Seq::<Seq<char>>::empty());
    let after = if pid != 0 {
        ServiceStatusView { main_pid: Some(pid), ..initial_status() }
    } else {
        initial_status()
    };
    assert(apply_line(initial_status(), ls[0]) == Ok::<ServiceStatusView, Seq<char>>(after));
    assert(apply_lines(after, ls.drop_first()) == Ok::<ServiceStatusView, Seq<char>>(after));
    assert(service_status_of(line.push('\n')) == apply_lines(initial_status(), ls));
}

/// A `+` before the digits is allowed: it reads as the same `u32`.
pub proof fn lemma_parse_u32_plus(p: u32)
    ensures
        parse_u32(seq!['+'] + decimal(p as nat)) == Some(p),
{
    lemma_decimal(p as nat);
    let d = decimal(p as nat);
    assert((seq!['+'] + d).drop_first() =~= d);
}

/// A text that is empty, or that holds a character other than a digit (a
/// leading `+` aside), or the digits of a number beyond `u32::MAX`, is not a `u32`.
pub proof fn lemma_parse_u32_rejects(v: Seq<char>, n: nat)
    ensures
        v.len() == 0 ==> parse_u32(v) is None,
        (exists|i: int| 0 <= i < v.len() && !is_ascii_digit(#[trigger] v[i]) && !(i == 0 && v[i] == '+'))
            ==> parse_u32(v) is None,
        n > u32::MAX ==> parse_u32(decimal(n)) is None,
{
    if exists|i: int| 0 <= i < v.len() && !is_ascii_digit(#[trigger] v[i]) && !(i == 0 && v[i] == '+') {
        let i = choose|i: int| 0 <= i < v.len() && !is_ascii_digit(#[trigger] v[i]) && !(i == 0 && v[i] == '+');
        let d = unsigned_digits(v);
        if v.len() > 0 && v[0] == '+' {
            assert(d[i - 1] == v[i]);
        } else {
            assert(d[i] == v[i]);
        }
    }
    lemma_decimal(n);
    let d = decimal(n);
    if d.len() > 0 && d[0] == '+' {
        assert(is_ascii_digit(d[0]));
    }
}

/// A line `MainPID=value` whose value is not a `u32` is an error that names the value.
pub proof fn lemma_bad_main_pid_line(st: ServiceStatusView, value: Seq<char>)
    requires
        parse_u32(value) is None,
    ensures
        apply_line(st, "MainPID="@ + value) == Err::<ServiceStatusView, Seq<char>>(value),
{
    reveal_strlit("MainPID=");
    reveal_strlit("MainPID");
    reveal_strlit("ActiveState");
    reveal_strlit("SubState");
    let key = "MainPID"@;
    assert("MainPID="@ + value =~= key + seq!['='] + value);
    lemma_split_at_key(key, value);
    assert(key != "ActiveState"@);
    assert(key != "SubState"@);
}

/// When `a` is empty or ends in `\n`, the lines of `a + b` are those of `a`,
/// then those of `b`.
pub proof fn lemma_lines_concat(a: Seq<char>, b: Seq<char>)
    requires
        ends_a_line(a),
    ensures
        lines(a + b) == lines(a) + lines(b),
{
    lemma_lines_prefix(a, b, 0);
}

/// The output `ActiveState=<a>\nSubState=<b>\nMainPID=<pid>\n` reports the active
/// state `a`, the sub-state `b` and the process id `pid` (none for 0), for all
/// states without `\n` that do not end in `\r`, and every `u32`.
pub proof fn lemma_full_output(a: Seq<char>, b: Seq<char>, pid: u32)
    requires
        forall|i: int| 0 <= i < a.len() ==> a[i] != '\n',
        forall|i: int| 0 <= i < b.len() ==> b[i] != '\n',
        a.len() == 0 || a.last() != '\r',
        b.len() == 0 || b.last() != '\r',
    ensures
        service_status_of(
            ("ActiveState="@ + a).push('\n') + ("SubState="@ + b).push('\n') + ("MainPID="@
                + decimal(pid as nat)).push('\n'),
        ) == Ok::<ServiceStatusView, Seq<char>>(
            ServiceStatusView {
                active_state: a,
                sub_state: b,
                main_pid: if pid != 0 {
                    Some(pid)
                } else {
                    None
                },
            },
        ),
{
    reveal_strlit("ActiveState=");
    reveal_strlit("SubState=");
    reveal_strlit("MainPID=");
    let l1 = "ActiveState="@ + a;
    let l2 = "SubState="@ + b;
    let l3 = "MainPID="@ + decimal(pid as nat);
    lemma_decimal(pid as nat);
    assert forall|i: int| 0 <= i < l1.len() implies l1[i] != '\n' by {
        if i >= 12 {
            assert(l1[i] == a[i - 12]);
        }
    }
    assert forall|i: int| 0 <= i < l2.len() implies l2[i] != '\n' by {
        if i >= 9 {
            assert(l2[i] == b[i - 9]);
        }
    }
    assert forall|i: int| 0 <= i < l3.len() implies l3[i] != '\n' by {
        if i >= 8 {
            assert(l3[i] == decimal(pid as nat)[i - 8]);
            assert(is_ascii_digit(decimal(pid as nat)[i - 8]));
        }
    }
    if a.len() > 0 {
        assert(l1.last() == a.last());
    }
    if b.len() > 0 {
        assert(l2.last() == b.last());
    }
    assert(l3.last() == decimal(pid as nat).last());
    assert(is_ascii_digit(decimal(pid as nat)[decimal(pid as nat).len() - 1]));
    lemma_lines_of_terminated(l1);
    lemma_lines_of_terminated(l2);
    lemma_lines_of_terminated(l3);
    let t1 = l1.push('\n');
    let t2 = l2.push('\n');
    let t3 = l3.push('\n');
    assert(ends_a_line(t1));
    assert(ends_a_line(t1 + t2)) by {
        assert((t1 + t2).last() == '\n');
    }
    lemma_lines_concat(t1, t2);
    lemma_lines_concat(t1 + t2, t3);
    let ls = lines(t1 + t2 + t3);
    assert(ls =~= seq![l1, l2, l3]);
    let st0 = initial_status();
    lemma_active_state_line(st0, a);
    let st1 = ServiceStatusView { active_state: a, ..st0 };
    lemma_sub_state_line(st1, b);
    let st2 = ServiceStatusView { sub_state: b, ..st1 };
    lemma_main_pid_line(st2, pid);
    let st3 = if pid != 0 {
        ServiceStatusView { main_pid: Some(pid), ..st2 }
    } else {
        st2
    };
    assert(ls[0] == l1);
    assert(ls.drop_first() =~= seq![l2, l3]);
    assert(seq![l2, l3][0] == l2);
    assert(seq![l2, l3].drop_first() =~= seq![l3]);
    assert(seq![l3][0] == l3);
    assert(seq![l3].drop_first() =~= Seq::<Seq<char>>::empty());
    assert(apply_lines(st3, Seq::<Seq<char>>::empty()) == Ok::<ServiceStatusView, Seq<char>>(st3));
    assert(apply_lines(st2, seq![l3]) == Ok::<ServiceStatusView, Seq<char>>(st3));
    assert(apply_lines(st1, seq![l2, l3]) == Ok::<ServiceStatusView, Seq<char>>(st3));
    assert(apply_lines(st0, ls) == Ok::<ServiceStatusView, Seq<char>>(st3));
}

/// The index of the first `c` in `s` at or after `start`, or the length of `s`.
fn find_char(s: &str, c: char, start: usize, n: usize) -> (k: usize)
    requires
        n == s@.len(),
        start <= n,
    ensures
        k == find_from(s@, c, start as int),
{
    let mut k = start;
    while k < n
        invariant
            n == s@.len(),
            start <= k <= n,
            find_from(s@, c, k as int) == find_from(s@, c, start as int),
        decreases n - k,
    {
        if s.get_char(k) == c {
            return k;
        }
        k = k + 1;
    }
    k
}

/// The `u32` that `s` writes, as `str::parse::<u32>` reads it.
pub fn parse_u32_exec(s: &str) -> (value: Option<u32>)
    ensures
        value == parse_u32(s@),
{
    let n = s.unicode_len();
    let mut i: usize = 0;
    if n > 0 && s.get_char(0) == '+' {
        i = 1;
    }
    let first = i;
    let ghost d = unsigned_digits(s@);
    assert(d =~= s@.subrange(first as int, n as int));
    if i >= n {
        return None;
    }
    let mut value: u64 = 0;
    let mut overflow = false;
    while i < n
        invariant
            n == s@.len(),
            first <= i <= n,
            d =~= s@.subrange(first as int, n as int),
            d == unsigned_digits(s@),
            forall|j: int| first <= j < i ==> is_ascii_digit(#[trigger] s@[j]),
            !overflow ==> value == digits_value(s@.subrange(first as int, i as int)) && value
                <= u32::MAX,
            overflow ==> digits_value(s@.subrange(first as int, i as int)) > u32::MAX,
        decreases n - i,
    {
        let c = s.get_char(i);
        let code = c as u32;
        if code < 48 || code > 57 {
            assert(!is_ascii_digit(d[i - first]));
            return None;
        }
        assert(s@.subrange(first as int, i + 1).drop_last() =~= s@.subrange(first as int, i as int));
        let digit = (code - 48) as u64;
        if !overflow {
            let v = value * 10 + digit;
            if v > 4294967295 {
                overflow = true;
            } else {
                value = v;
            }
        }
        i = i + 1;
    }
    assert(s@.subrange(first as int, n as int) =~= d);
    if overflow {
        None
    } else {
        Some(value as u32)
    }
}


/// The mathematical value of the result of reading a line or an output.
pub open spec fn status_result_view(r: Result<ServiceStatus, String>) -> Result<
    ServiceStatusView,
    Seq<char>,
> {
    match r {
        Ok(st) => Ok(st@),
        Err(value) => Err(value@),
    }
}

/// The state after reading `line` on top of `st`, as [`apply_line`] states.
fn read_line(st: ServiceStatus, line: &str) -> (r: Result<ServiceStatus, String>)
    ensures
        status_result_view(r) == apply_line(st@, line@),
{
    let n = line.unicode_len();
    let k = find_char(line, '=', 0, n);
    proof {
        lemma_find_from_bounds(line@, '=', 0);
    }
    if k >= n {
        return Ok(st);
    }
    let key = String::from_str(line.substring_char(0, k));
    let value = line.substring_char(k + 1, n);
    assert(key@ =~= line@.take(k as int));
    assert(value@ =~= line@.skip(k + 1));
    if key == String::from_str("ActiveState") {
        Ok(ServiceStatus { active_state: String::from_str(value), ..st })
    } else if key == String::from_str("SubState") {
        Ok(ServiceStatus { sub_state: String::from_str(value), ..st })
    } else if key == String::from_str("MainPID") {
        match parse_u32_exec(value) {
            Some(pid) => {
                if pid != 0 {
                    Ok(ServiceStatus { main_pid: Some(pid), ..st })
                } else {
                    Ok(st)
                }
            },
            None => Err(String::from_str(value)),
        }
    } else {
        Ok(st)
    }
}

/// The state of the service that `output`, the text printed by
/// `systemctl show --property=ActiveState --property=SubState --property=MainPID`,
/// reports; an error names the `MainPID` value that is not a `u32`.
pub fn parse_service_status(output: &str) -> (r: Result<ServiceStatus, StatusError>)
    ensures
        match r {
            Ok(st) => service_status_of(output@) == Ok::<ServiceStatusView, Seq<char>>(st@),
            Err(StatusError::InvalidMainPid(value)) => service_status_of(output@) == Err::<
                ServiceStatusView,
                Seq<char>,
            >(value@),
        },
{
    let n = output.unicode_len();
    let mut st = ServiceStatus { active_state: String::new(), sub_state: String::new(), main_pid: None };
    assert(st@ =~= initial_status());
    let mut start: usize = 0;
    while start < n
        invariant
            n == output@.len(),
            start <= n,
            apply_lines(st@, lines_from(output@, start as nat)) == service_status_of(output@),
        decreases n - start,
    {
        let end = find_char(output, '\n', start, n);
        proof {
            lemma_find_from_bounds(output@, '\n', start as int);
        }
        let mut stop = end;
        if end < n && end > start && output.get_char(end - 1) == '\r' {
            stop = end - 1;
        }
        let line = output.substring_char(start, stop);
        let ghost rest = lines_from(output@, (end + 1) as nat);
        proof {
            let raw = output@.subrange(start as int, end as int);
            if end < n && raw.len() > 0 && raw.last() == '\r' {
                assert(line@ =~= raw.drop_last());
            } else {
                assert(line@ =~= raw);
            }
            assert(lines_from(output@, start as nat) == seq![line@] + rest);
            assert((seq![line@] + rest)[0] == line@);
            assert((seq![line@] + rest).drop_first() =~= rest);
        }
        match read_line(st, line) {
            Ok(next) => {
                st = next;
            },
            Err(value) => {
                return Err(StatusError::InvalidMainPid(value));
            },
        }
        if end < n {
            start = end + 1;
        } else {
            start = n;
        }
    }
    Ok(st)
}

} // verus!
