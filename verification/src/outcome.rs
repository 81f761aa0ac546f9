//! How the outcome of an isolated action is reported across the Python bridge: the failure
//! text of a boundary exit status, and the exception class a failure text is raised as.
use vstd::prelude::*;
use crate::delta::http::{
    copy_chars, digit_value, digits_value, is_ascii_digit, is_char, lemma_first_where_unique,
    parse_bounded, parse_bounded_chars, split_once, split_once_chars, unsigned_digits,
};
use crate::delta::network::{decimal, decimal_string, digit_char};
use crate::error::BoundaryExitStatus;

verus! {

/// Decimal text of a signed integer.
pub open spec fn signed_decimal(n: int) -> Seq<char> {
    if n < 0 {
        "-"@ + decimal((-n) as nat)
    } else {
        decimal(n as nat)
    }
}

fn signed_decimal_string(n: i32) -> (r: String)
    ensures
        r@ == signed_decimal(n as int),
{
    if n < 0 {
        let magnitude: u64 = (0 - (n as i64)) as u64;
        let mut s = String::from_str("-");
        s.append(decimal_string(magnitude).as_str());
        s
    } else {
        decimal_string(n as u64)
    }
}

/// The characters of a text, in order.
fn chars_of(s: &str) -> (r: Vec<char>)
    ensures
        r@ == s@,
{
    let n = s.unicode_len();
    let mut r: Vec<char> = Vec::new();
    let mut i: usize = 0;
    while i < n
        invariant
            n == s@.len(),
            i <= n,
            r@ == s@.take(i as int),
        decreases n - i,
    {
        r.push(s.get_char(i));
        assert(s@.take(i + 1) =~= s@.take(i as int).push(s@[i as int]));
        i = i + 1;
    }
    assert(s@.take(n as int) =~= s@);
    r
}

/// The text that opens the failure text of a boundary breach.
pub open spec fn violation_prefix() -> Seq<char> {
    "SYSCALL_VIOLATION:"@
}

/// Failure text of a boundary breach: `SYSCALL_VIOLATION:<syscall>:<instruction pointer>`.
pub open spec fn violation_marker(syscall_nr: nat, instruction_pointer: nat) -> Seq<char> {
    violation_prefix() + decimal(syscall_nr) + ":"@ + decimal(instruction_pointer)
}

fn violation_marker_string(syscall_nr: u32, instruction_pointer: u64) -> (r: String)
    ensures
        r@ == violation_marker(syscall_nr as nat, instruction_pointer as nat),
{
    let mut s = String::from_str("SYSCALL_VIOLATION:");
    s.append(decimal_string(syscall_nr as u64).as_str());
    s.append(":");
    s.append(decimal_string(instruction_pointer).as_str());
    s
}

/// Failure text of a non-zero exit code.
pub open spec fn exit_code_text(code: int) -> Seq<char> {
    "Process exited with status code "@ + signed_decimal(code)
}

/// The failure an exit status of the isolated process reports: a breach by its marker, a
/// signal by its number, a non-zero exit by its code; a clean exit reports none.
pub open spec fn exit_failure_text(status: BoundaryExitStatus) -> Option<Seq<char>> {
    match status {
        BoundaryExitStatus::SyscallViolation { syscall_nr, instruction_pointer } => Some(
            violation_marker(syscall_nr as nat, instruction_pointer as nat),
        ),
        BoundaryExitStatus::Signaled(sig) => Some("Process terminated by signal: "@ + signed_decimal(sig as int)),
        BoundaryExitStatus::Exited(code) => if code != 0 {
            Some(exit_code_text(code as int))
        } else {
            None
        },
    }
}

/// The failure text of an exit status of the isolated process; `None` for a clean exit.
pub fn exit_status_failure(status: &BoundaryExitStatus) -> (r: Option<String>)
    ensures
        match exit_failure_text(*status) {
            Some(t) => r matches Some(s) && s@ == t,
            None => r is None,
        },
{
    match status {
        BoundaryExitStatus::SyscallViolation { syscall_nr, instruction_pointer } => Some(
            violation_marker_string(*syscall_nr, *instruction_pointer),
        ),
        BoundaryExitStatus::Signaled(sig) => {
            let mut s = String::from_str("Process terminated by signal: ");
            s.append(signed_decimal_string(*sig).as_str());
            Some(s)
        },
        BoundaryExitStatus::Exited(code) => {
            if *code != 0 {
                let mut s = String::from_str("Process exited with status code ");
                s.append(signed_decimal_string(*code).as_str());
                Some(s)
            } else {
                None
            }
        },
    }
}

proof fn lemma_digit_char(d: int)
    requires
        0 <= d < 10,
    ensures
        is_ascii_digit(digit_char(d)),
        digit_value(digit_char(d)) == d,
{
}

/// The decimal text of a number is a non-empty run of digits whose value is the number.
proof fn lemma_decimal_digits(n: nat)
    ensures
        decimal(n).len() >= 1,
        forall|i: int| 0 <= i < decimal(n).len() ==> is_ascii_digit(#[trigger] decimal(n)[i]),
        digits_value(decimal(n)) == n,
    decreases n,
{
    if n < 10 {
        lemma_digit_char(n as int);
        let d = decimal(n);
        assert(d.drop_last() =~= Seq::<char>::empty());
        assert(digits_value(d) == digits_value(d.drop_last()) * 10 + digit_value(d.last()));
    } else {
        let q = (n / 10) as nat;
        lemma_decimal_digits(q);
        lemma_digit_char((n % 10) as int);
        let d = decimal(n);
        assert(d == decimal(q).push(digit_char((n % 10) as int)));
        assert(d.drop_last() =~= decimal(q));
        assert(digits_value(d) == digits_value(d.drop_last()) * 10 + digit_value(d.last()));
        assert(n == q * 10 + n % 10);
        assert forall|i: int| 0 <= i < d.len() implies is_ascii_digit(#[trigger] d[i]) by {
            if i < d.len() - 1 {
                assert(d[i] == decimal(q)[i]);
            }
        }
    }
}

/// A decimal text parses back to its number.
proof fn lemma_parse_decimal(n: nat, max: int)
    requires
        n <= max,
    ensures
        parse_bounded(decimal(n), max) == Some(n),
{
    lemma_decimal_digits(n);
    assert(decimal(n)[0] != '+');
    assert(unsigned_digits(decimal(n)) == decimal(n));
}

/// A text splits at its first `:`.
proof fn lemma_split_at_colon(s: Seq<char>, i: int)
    requires
        0 <= i < s.len(),
        s[i] == ':',
        forall|j: int| 0 <= j < i ==> s[j] != ':',
    ensures
        split_once(s, ':') == Some((s.take(i), s.skip(i + 1))),
{
    assert forall|j: int| 0 <= j < i implies !is_char(':')(#[trigger] s[j]) by {}
    lemma_first_where_unique(s, is_char(':'), i);
}

/// A text without `:` does not split.
proof fn lemma_no_colon(s: Seq<char>)
    requires
        forall|j: int| 0 <= j < s.len() ==> s[j] != ':',
    ensures
        split_once(s, ':') is None,
{
    assert forall|j: int| 0 <= j < s.len() implies !is_char(':')(#[trigger] s[j]) by {}
    lemma_first_where_unique(s, is_char(':'), s.len() as int);
}

/// The breach marker of a syscall and an instruction pointer is raised as a boundary breach
/// carrying them both.
proof fn lemma_violation_marker_class(nr: nat, ip: nat)
    requires
        nr <= u32::MAX,
        ip <= u64::MAX,
    ensures
        failure_class(violation_marker(nr, ip)) == (FailureClass::SyscallViolation {
            syscall_nr: nr as u32,
            instruction_pointer: ip as u64,
        }),
{
    reveal_strlit("SYSCALL_VIOLATION:");
    reveal_strlit(":");
    let p = violation_prefix();
    let d1 = decimal(nr);
    let d2 = decimal(ip);
    lemma_decimal_digits(nr);
    lemma_decimal_digits(ip);
    let t = violation_marker(nr, ip);
    assert(p.len() == 18);
    assert(t.take(18) =~= p);
    let rest = d1 + ":"@ + d2;
    assert(t =~= p + rest);
    assert forall|j: int| 0 <= j < 17 implies t[j] != ':' by {
        assert(t[j] == p[j]);
    }
    assert(t[17] == ':');
    lemma_split_at_colon(t, 17);
    assert(t.skip(18) =~= rest);
    let k = d1.len() as int;
    assert forall|j: int| 0 <= j < k implies rest[j] != ':' by {
        assert(rest[j] == d1[j]);
        assert(is_ascii_digit(d1[j]));
    }
    assert(rest[k] == ':');
    lemma_split_at_colon(rest, k);
    assert(rest.take(k) =~= d1);
    assert(rest.skip(k + 1) =~= d2);
    assert forall|j: int| 0 <= j < d2.len() implies d2[j] != ':' by {
        assert(is_ascii_digit(d2[j]));
    }
    lemma_no_colon(d2);
    assert(colon_field(t, 1) == colon_field(rest, 0));
    assert(colon_field(t, 2) == colon_field(rest, 1));
    assert(colon_field(rest, 1) == colon_field(d2, 0));
    lemma_parse_decimal(nr, u32::MAX as int);
    lemma_parse_decimal(ip, u64::MAX as int);
}

/// A failure text made of a literal that opens with `P` and holds no `D`, followed by a
/// signed number, is raised as a setup failure.
proof fn lemma_plain_failure_class(lit: Seq<char>, n: int)
    requires
        lit.len() >= 1,
        lit[0] == 'P',
        forall|j: int| 0 <= j < lit.len() ==> lit[j] != 'D',
    ensures
        failure_class(lit + signed_decimal(n)) == FailureClass::IsolationSetup,
{
    reveal_strlit("SYSCALL_VIOLATION:");
    reveal_strlit("Delta computation");
    reveal_strlit("-");
    let t = lit + signed_decimal(n);
    let digits = if n < 0 { decimal((-n) as nat) } else { decimal(n as nat) };
    lemma_decimal_digits(if n < 0 { (-n) as nat } else { n as nat });
    assert forall|i: int| 0 <= i < t.len() implies t[i] != 'D' by {
        if i >= lit.len() {
            let j = i - lit.len();
            if n < 0 {
                if j > 0 {
                    assert(signed_decimal(n)[j] == digits[j - 1]);
                    assert(is_ascii_digit(digits[j - 1]));
                }
            } else {
                assert(is_ascii_digit(digits[j]));
            }
        }
    }
    assert(t[0] == 'P');
    if t.len() >= violation_prefix().len() {
        assert(t.take(violation_prefix().len() as int)[0] != violation_prefix()[0]);
    }
    let marker = delta_computation_marker();
    if contains_text(t, marker) {
        let i = choose|i: int| 0 <= i && i + marker.len() <= t.len() && #[trigger] t.subrange(i, i + marker.len()) == marker;
        assert(t.subrange(i, i + marker.len())[0] == t[i]);
        assert(marker[0] == 'D');
    }
}

proof fn lemma_exit_code_text_class(code: int)
    ensures
        failure_class(exit_code_text(code)) == FailureClass::IsolationSetup,
{
    reveal_strlit("Process exited with status code ");
    let lit = "Process exited with status code "@;
    assert forall|j: int| 0 <= j < lit.len() implies lit[j] != 'D' by {}
    lemma_plain_failure_class(lit, code);
}

/// The failure text an exit status reports is raised as its kind calls for: a breach as a
/// boundary breach carrying the same syscall number and instruction pointer, a signal or a
/// failed exit as a setup failure; only a clean exit reports no failure.
pub proof fn lemma_exit_failure_round_trip(status: BoundaryExitStatus)
    ensures
        exit_failure_text(status) is None <==> status == BoundaryExitStatus::Exited(0),
        exit_failure_text(status) matches Some(t) ==> failure_class(t) == match status {
            BoundaryExitStatus::SyscallViolation { syscall_nr, instruction_pointer } => FailureClass::SyscallViolation {
                syscall_nr,
                instruction_pointer,
            },
            _ => FailureClass::IsolationSetup,
        },
{
    match status {
        BoundaryExitStatus::SyscallViolation { syscall_nr, instruction_pointer } => {
            lemma_violation_marker_class(syscall_nr as nat, instruction_pointer as nat);
        },
        BoundaryExitStatus::Signaled(sig) => {
            reveal_strlit("Process terminated by signal: ");
            let lit = "Process terminated by signal: "@;
            assert forall|j: int| 0 <= j < lit.len() implies lit[j] != 'D' by {}
            lemma_plain_failure_class(lit, sig as int);
        },
        BoundaryExitStatus::Exited(code) => {
            lemma_exit_code_text_class(code as int);
        },
    }
}

/// The failure text of a sandboxed action's exit code is raised as a boundary breach of
/// syscall `1` at instruction pointer `0` for a denied write the action was asked to attempt,
/// and as a setup failure for any other failed exit.
pub proof fn lemma_sandbox_failure_round_trip(trigger_blocked_syscall: bool, status_code: i32)
    ensures
        sandbox_exit_failure_text(trigger_blocked_syscall, status_code) matches Some(t) ==> failure_class(t) == if trigger_blocked_syscall
            && status_code == DENIED_EXIT_CODE {
            FailureClass::SyscallViolation { syscall_nr: 1, instruction_pointer: 0 }
        } else {
            FailureClass::IsolationSetup
        },
{
    lemma_violation_marker_class(1, 0);
    lemma_exit_code_text_class(status_code as int);
}

/// The exit code reported for a child process that was waited for: its own exit code when it
/// exited, `128` plus the signal number when a signal terminated it, `1` otherwise.
pub open spec fn reported_exit_code_spec(exit_code: Option<i32>, term_signal: Option<i32>) -> int {
    match exit_code {
        Some(c) => c as int,
        None => match term_signal {
            Some(s) => 128 + s,
            None => 1,
        },
    }
}

/// The exit code reported for a child process that was waited for.
pub fn reported_exit_code(exit_code: Option<i32>, term_signal: Option<i32>) -> (r: i32)
    requires
        term_signal matches Some(s) ==> s <= i32::MAX - 128,
    ensures
        r as int == reported_exit_code_spec(exit_code, term_signal),
{
    match exit_code {
        Some(c) => c,
        None => match term_signal {
            Some(s) => 128 + s,
            None => 1,
        },
    }
}

/// The exit code with which the sandboxed action reports that the write it attempted outside
/// the sandbox was denied.
pub const DENIED_EXIT_CODE: i32 = 126;

/// The failure a sandboxed action's exit code reports: a denied write that the action was
/// asked to attempt is a breach of syscall `1` at instruction pointer `0`; a denied write is
/// otherwise tolerated; any other non-zero code is a failed exit.
pub open spec fn sandbox_exit_failure_text(trigger_blocked_syscall: bool, status_code: i32) -> Option<Seq<char>> {
    if trigger_blocked_syscall && status_code == DENIED_EXIT_CODE {
        Some(violation_marker(1, 0))
    } else if status_code != 0 && status_code != DENIED_EXIT_CODE {
        Some(exit_code_text(status_code as int))
    } else {
        None
    }
}

/// The failure text of a sandboxed action's exit code; `None` when the action succeeded.
pub fn sandbox_exit_failure(trigger_blocked_syscall: bool, status_code: i32) -> (r: Option<String>)
    ensures
        match sandbox_exit_failure_text(trigger_blocked_syscall, status_code) {
            Some(t) => r matches Some(s) && s@ == t,
            None => r is None,
        },
{
    if trigger_blocked_syscall && status_code == DENIED_EXIT_CODE {
        Some(violation_marker_string(1, 0))
    } else if status_code != 0 && status_code != DENIED_EXIT_CODE {
        let mut s = String::from_str("Process exited with status code ");
        s.append(signed_decimal_string(status_code).as_str());
        Some(s)
    } else {
        None
    }
}

/// The exception class a failure text is raised as.
#[derive(Debug, Clone, Copy, PartialEq, Eq, Structural)]
pub enum FailureClass {
    /// A breach of the syscall boundary, with the syscall and instruction pointer it names.
    SyscallViolation { syscall_nr: u32, instruction_pointer: u64 },
    /// The state delta could not be computed.
    DeltaComputation,
    /// Any other failure to set up or run the boundary.
    IsolationSetup,
}

/// The `k`-th field of a text split at `:`, as `str::split(':')` yields them.
pub open spec fn colon_field(s: Seq<char>, k: nat) -> Option<Seq<char>>
    decreases k,
{
    match split_once(s, ':') {
        None => if k == 0 {
            Some(s)
        } else {
            None
        },
        Some((a, b)) => if k == 0 {
            Some(a)
        } else {
            colon_field(b, (k - 1) as nat)
        },
    }
}

/// The number in the `k`-th `:`-separated field of a text, when it parses within `max`;
/// `0` otherwise.
pub open spec fn field_number(s: Seq<char>, k: nat, max: int) -> nat {
    match colon_field(s, k) {
        Some(f) => match parse_bounded(f, max) {
            Some(v) => v,
            None => 0,
        },
        None => 0,
    }
}

/// `t` occurs in `s`.
pub open spec fn contains_text(s: Seq<char>, t: Seq<char>) -> bool {
    exists|i: int| 0 <= i && i + t.len() <= s.len() && #[trigger] s.subrange(i, i + t.len()) == t
}

/// The text that marks a failure of the state delta computation.
pub open spec fn delta_computation_marker() -> Seq<char> {
    "Delta computation"@
}

/// The exception class of a failure text: a breach marker raises a boundary breach carrying
/// the syscall and instruction pointer it names (`0` where a field does not parse); a text
/// that mentions the delta computation raises a delta failure; any other text a setup failure.
pub open spec fn failure_class(msg: Seq<char>) -> FailureClass {
    if msg.len() >= violation_prefix().len() && msg.take(violation_prefix().len() as int) == violation_prefix() {
        FailureClass::SyscallViolation {
            syscall_nr: field_number(msg, 1, u32::MAX as int) as u32,
            instruction_pointer: field_number(msg, 2, u64::MAX as int) as u64,
        }
    } else if contains_text(msg, delta_computation_marker()) {
        FailureClass::DeltaComputation
    } else {
        FailureClass::IsolationSetup
    }
}

fn colon_field_chars(s: &Vec<char>, k: usize) -> (r: Option<Vec<char>>)
    ensures
        match colon_field(s@, k as nat) {
            Some(f) => r matches Some(v) && v@ == f,
            None => r is None,
        },
{
    let mut cur = copy_chars(s, 0, s.len());
    assert(cur@ =~= s@);
    let mut i: usize = 0;
    while i < k
        invariant
            i <= k,
            colon_field(s@, k as nat) == colon_field(cur@, (k - i) as nat),
        decreases k - i,
    {
        match split_once_chars(&cur, ':') {
            None => {
                return None;
            },
            Some((_, rest)) => {
                cur = rest;
            },
        }
        i = i + 1;
    }
    match split_once_chars(&cur, ':') {
        None => Some(cur),
        Some((first, _)) => Some(first),
    }
}

fn field_number_of(s: &Vec<char>, k: usize, max: u64) -> (r: u64)
    ensures
        r as int == field_number(s@, k as nat, max as int),
        r <= max,
{
    match colon_field_chars(s, k) {
        Some(f) => match parse_bounded_chars(&f, max) {
            Some(v) => v,
            None => 0,
        },
        None => 0,
    }
}

/// Whether `t` occurs in `s` at position `i`.
fn occurs_at(s: &Vec<char>, t: &Vec<char>, i: usize) -> (r: bool)
    requires
        i + t@.len() <= s@.len(),
    ensures
        r == (s@.subrange(i as int, i + t@.len()) == t@),
{
    let n = s.len();
    let mut m: usize = 0;
    while m < t.len()
        invariant
            n == s@.len(),
            i + t@.len() <= s@.len(),
            m <= t@.len(),
            forall|q: int| 0 <= q < m ==> s@[i + q] == t@[q],
        decreases t@.len() - m,
    {
        if s[i + m] != t[m] {
            assert(s@.subrange(i as int, i + t@.len())[m as int] != t@[m as int]);
            return false;
        }
        m = m + 1;
    }
    assert(s@.subrange(i as int, i + t@.len()) =~= t@);
    true
}

fn contains_chars(s: &Vec<char>, t: &Vec<char>) -> (r: bool)
    ensures
        r == contains_text(s@, t@),
{
    if t.len() > s.len() {
        return false;
    }
    if t.len() == 0 {
        assert(s@.subrange(0, 0 + t@.len() as int) =~= t@);
        return true;
    }
    let n = s.len();
    let last = n - t.len();
    let mut i: usize = 0;
    while i <= last
        invariant
            n == s@.len(),
            last == s@.len() - t@.len(),
            t@.len() >= 1,
            i <= last + 1,
            forall|j: int| 0 <= j < i ==> #[trigger] s@.subrange(j, j + t@.len()) != t@,
        decreases last + 1 - i,
    {
        if occurs_at(s, t, i) {
            return true;
        }
        i = i + 1;
    }
    assert forall|j: int| 0 <= j && j + t@.len() <= s@.len() implies #[trigger] s@.subrange(j, j + t@.len()) != t@ by {
        assert(j < i);
    }
    false
}

/// Whether `s` begins with `p`.
fn starts_with_chars(s: &Vec<char>, p: &Vec<char>) -> (r: bool)
    ensures
        r == (s@.len() >= p@.len() && s@.take(p@.len() as int) == p@),
{
    if s.len() < p.len() {
        return false;
    }
    let found = occurs_at(s, p, 0);
    assert(s@.subrange(0, p@.len() as int) =~= s@.take(p@.len() as int));
    found
}

/// The exception class a failure text is raised as.
pub fn classify_failure(msg: &str) -> (r: FailureClass)
    ensures
        r == failure_class(msg@),
{
    let text = chars_of(msg);
    let prefix = chars_of("SYSCALL_VIOLATION:");
    if starts_with_chars(&text, &prefix) {
        let syscall_nr = field_number_of(&text, 1, u32::MAX as u64);
        let instruction_pointer = field_number_of(&text, 2, u64::MAX);
        return FailureClass::SyscallViolation { syscall_nr: syscall_nr as u32, instruction_pointer };
    }
    let marker = chars_of("Delta computation");
    if contains_chars(&text, &marker) {
        FailureClass::DeltaComputation
    } else {
        FailureClass::IsolationSetup
    }
}

} // verus!
