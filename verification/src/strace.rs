//! Reading the output of `strace -f -ff -ttt`.

use regex::Regex;
use vstd::prelude::*;
use vstd::string::*;

use crate::error::CauspanError;
use crate::error::StraceParseSource;
use crate::event::argument_places;
use crate::event::optional_text;
use crate::event::slice_texts;
use crate::event::KernelEventArgs;
use crate::event::KernelEventType;
use crate::number::read_signed;
use crate::number::read_unsigned;
use crate::number::signed_value;
use crate::number::unsigned_value;
use crate::number::NumberError;
use crate::text::begins_with;
use crate::text::chars_of;
use crate::text::lemma_split_nonempty;
use crate::text::lines;
use crate::text::lines_of;
use crate::text::same_text;
use crate::text::split;
use crate::text::split_text;
use crate::text::starts_with;
use crate::text::string_of;
use crate::text::texts;
use crate::text::trim;
use crate::text::trim_text;
use crate::text::unquote;
use crate::text::unquote_text;
use crate::text::words;
use crate::text::words_of;

verus! {

// ---------------------------------------------------------------------------
// Timestamps
// ---------------------------------------------------------------------------

/// The place of the first `c` in `s`; the length of `s` where there is none.
pub open spec fn first_place(s: Seq<char>, c: char) -> nat
    decreases s.len(),
{
    if s.len() == 0 || s[0] == c {
        0
    } else {
        1 + first_place(s.skip(1), c)
    }
}

/// Ten to the power of `n`.
pub open spec fn ten_to(n: nat) -> nat
    decreases n,
{
    if n == 0 {
        1
    } else {
        10 * ten_to((n - 1) as nat)
    }
}

/// The seconds and the digits after the point of a timestamp, as numbers, with the number of
/// those digits.
pub open spec fn timestamp_parts(s: Seq<char>) -> Result<(nat, nat, nat), StraceParseSource> {
    let dot = first_place(s, '.') as int;
    if dot >= s.len() {
        Err(StraceParseSource::MissingDecimalPoint)
    } else {
        match unsigned_value(s.take(dot), u64::MAX as nat) {
            Err(e) => Err(StraceParseSource::Number(e)),
            Ok(secs) => match unsigned_value(s.skip(dot + 1), u64::MAX as nat) {
                Err(e) => Err(StraceParseSource::Number(e)),
                Ok(frac) => Ok((secs, frac, s.skip(dot + 1).len())),
            },
        }
    }
}

/// The nanoseconds of `secs` seconds and of the fraction `frac` with `digits` digits, at most
/// nine.
pub open spec fn nanoseconds(secs: nat, frac: nat, digits: nat) -> nat {
    secs * 1_000_000_000 + frac * ten_to((9 - digits) as nat)
}

/// Whether the timestamp, where it can be read, has at most nine digits after the point and
/// its nanoseconds fit in 64 bits.
pub open spec fn timestamp_fits(s: Seq<char>) -> bool {
    match timestamp_parts(s) {
        Ok((secs, frac, digits)) => digits <= 9 && nanoseconds(secs, frac, digits) <= u64::MAX,
        Err(_) => true,
    }
}

/// The nanoseconds that the timestamp `s` stands for.
pub open spec fn timestamp_value(s: Seq<char>) -> Result<nat, CauspanError> {
    match timestamp_parts(s) {
        Ok((secs, frac, digits)) => Ok(nanoseconds(secs, frac, digits)),
        Err(source) => Err(CauspanError::StraceParse { line: 0, source }),
    }
}

/// Reads the parts of a timestamp.
fn read_parts(s: &str) -> (r: Result<(u64, u64, usize), StraceParseSource>)
    ensures
        match r {
            Ok((secs, frac, digits)) => timestamp_parts(s@) == Ok::<
                (nat, nat, nat),
                StraceParseSource,
            >((secs as nat, frac as nat, digits as nat)),
            Err(e) => timestamp_parts(s@) == Err::<(nat, nat, nat), StraceParseSource>(e),
        },
{
    let v = chars_of(s);
    let mut dot: usize = 0;
    assert(v@.skip(0) =~= v@);
    while dot < v.len() && v[dot] != '.'
        invariant
            dot <= v.len(),
            first_place(v@, '.') == dot + first_place(v@.skip(dot as int), '.'),
        decreases v.len() - dot,
    {
        assert(v@.skip(dot as int).skip(1) =~= v@.skip(dot + 1));
        dot += 1;
    }
    if dot == v.len() {
        return Err(StraceParseSource::MissingDecimalPoint);
    }
    let whole = string_of(&v, 0, dot);
    assert(whole@ =~= s@.take(dot as int));
    let part = string_of(&v, dot + 1, v.len());
    assert(part@ =~= s@.skip(dot + 1));
    match read_unsigned(whole.as_str(), u64::MAX) {
        Err(e) => Err(StraceParseSource::Number(e)),
        Ok(secs) => match read_unsigned(part.as_str(), u64::MAX) {
            Err(e) => Err(StraceParseSource::Number(e)),
            Ok(frac) => Ok((secs, frac, v.len() - (dot + 1))),
        },
    }
}

/// Ten to the power of `n`, at most nine.
fn power_of_ten(n: usize) -> (r: u64)
    requires
        n <= 9,
    ensures
        r == ten_to(n as nat),
        1 <= r <= 1_000_000_000,
{
    let mut r: u64 = 1;
    let mut i: usize = 0;
    assert(ten_to(9) == 1_000_000_000) by {
        reveal_with_fuel(ten_to, 10);
    }
    while i < n
        invariant
            i <= n <= 9,
            r == ten_to(i as nat),
            1 <= r,
            ten_to(9) == 1_000_000_000,
        decreases n - i,
    {
        proof {
            lemma_ten_grows((i + 1) as nat, 9);
        }
        assert(ten_to((i + 1) as nat) == 10 * ten_to(i as nat));
        r = r * 10;
        i += 1;
    }
    proof {
        lemma_ten_grows(n as nat, 9);
    }
    r
}

proof fn lemma_ten_grows(a: nat, b: nat)
    requires
        a <= b,
    ensures
        1 <= ten_to(a) <= ten_to(b),
    decreases b,
{
    if b > 0 {
        if a < b {
            lemma_ten_grows(a, (b - 1) as nat);
        } else {
            lemma_ten_grows((a - 1) as nat, (b - 1) as nat);
        }
    }
}

/// The nanoseconds of the parts of a timestamp, if they fit in 64 bits.
fn combine(secs: u64, frac: u64, digits: usize) -> (r: Option<u64>)
    ensures
        match r {
            Some(ns) => digits <= 9 && ns == nanoseconds(secs as nat, frac as nat, digits as nat),
            None => digits > 9 || nanoseconds(secs as nat, frac as nat, digits as nat) > u64::MAX,
        },
{
    if digits > 9 {
        return None;
    }
    let scale: u64 = power_of_ten(9 - digits);
    assert(frac * scale <= 0xffff_ffff_ffff_ffff * 1_000_000_000) by (nonlinear_arith)
        requires
            frac <= 0xffff_ffff_ffff_ffff,
            scale <= 1_000_000_000,
    ;
    assert(frac * scale >= 0) by (nonlinear_arith)
        requires
            frac >= 0,
            scale >= 0,
    ;
    let total: u128 = secs as u128 * 1_000_000_000 + frac as u128 * scale as u128;
    if total <= u64::MAX as u128 {
        Some(total as u64)
    } else {
        None
    }
}

/// Whether [`parse_timestamp_ns`] can be called on `s`.
pub fn timestamp_is_representable(s: &str) -> (r: bool)
    ensures
        r == timestamp_fits(s@),
{
    match read_parts(s) {
        Ok((secs, frac, digits)) => combine(secs, frac, digits).is_some(),
        Err(_) => true,
    }
}

/// Parse `<seconds>.<microseconds>` to nanoseconds.
pub fn parse_timestamp_ns(s: &str) -> (r: Result<u64, CauspanError>)
    requires
        timestamp_fits(s@),
    ensures
        match r {
            Ok(ns) => timestamp_value(s@) == Ok::<nat, CauspanError>(ns as nat),
            Err(e) => timestamp_value(s@) == Err::<nat, CauspanError>(e),
        },
{
    match read_parts(s) {
        Err(source) => Err(CauspanError::StraceParse { line: 0, source }),
        Ok((secs, frac, digits)) => match combine(secs, frac, digits) {
            Some(ns) => Ok(ns),
            None => {
                // Ruled out by the precondition.
                assert(false);
                Ok(0)
            },
        },
    }
}

// ---------------------------------------------------------------------------
// Syscalls and their arguments
// ---------------------------------------------------------------------------

/// The event type of the syscall `name`.
pub open spec fn event_of_name(name: Seq<char>) -> KernelEventType {
    if name == "openat"@ {
        KernelEventType::Openat
    } else if name == "read"@ {
        KernelEventType::Read
    } else if name == "write"@ {
        KernelEventType::Write
    } else if name == "socket"@ {
        KernelEventType::Socket
    } else if name == "connect"@ {
        KernelEventType::Connect
    } else if name == "clone"@ {
        KernelEventType::Clone
    } else if name == "fork"@ {
        KernelEventType::Fork
    } else if name == "execve"@ {
        KernelEventType::Execve
    } else {
        KernelEventType::Unknown
    }
}

/// The event type of the syscall `name`.
pub fn syscall_name_to_event(name: &str) -> (r: KernelEventType)
    ensures
        r == event_of_name(name@),
{
    if same_text(name, "openat") {
        KernelEventType::Openat
    } else if same_text(name, "read") {
        KernelEventType::Read
    } else if same_text(name, "write") {
        KernelEventType::Write
    } else if same_text(name, "socket") {
        KernelEventType::Socket
    } else if same_text(name, "connect") {
        KernelEventType::Connect
    } else if same_text(name, "clone") {
        KernelEventType::Clone
    } else if same_text(name, "fork") {
        KernelEventType::Fork
    } else if same_text(name, "execve") {
        KernelEventType::Execve
    } else {
        KernelEventType::Unknown
    }
}

/// An event type is found again under the name it is shown by.
pub proof fn law_type_names_round_trip(t: KernelEventType)
    ensures
        event_of_name(t.spec_text()) == t,
{
    reveal_strlit("openat");
    reveal_strlit("read");
    reveal_strlit("write");
    reveal_strlit("socket");
    reveal_strlit("connect");
    reveal_strlit("clone");
    reveal_strlit("fork");
    reveal_strlit("execve");
    reveal_strlit("unknown");
    assert("read"@[0] == 'r' && "fork"@[0] == 'f' && "read"@.len() == 4 && "fork"@.len() == 4);
    assert("write"@[0] == 'w' && "clone"@[0] == 'c' && "write"@.len() == 5 && "clone"@.len() == 5);
    assert("openat"@[0] == 'o' && "openat"@.len() == 6);
    assert("socket"@[0] == 's' && "socket"@.len() == 6);
    assert("execve"@[0] == 'e' && "execve"@.len() == 6);
    assert("connect"@[0] == 'c' && "connect"@.len() == 7);
    assert("unknown"@[0] == 'u' && "unknown"@.len() == 7);
}

/// The arguments that the text between the parentheses of a call holds: its pieces between
/// the commas, without the white space and then without the quotes around them.
pub open spec fn arguments(s: Seq<char>) -> Seq<Seq<char>> {
    split(s, ',').map_values(|p: Seq<char>| unquote(trim(p)))
}

/// Split the comma-separated argument string into individual values.
pub fn parse_args(s: &str) -> (r: KernelEventArgs)
    ensures
        r@ == argument_places(arguments(s@)),
{
    let pieces = split_text(s, ',');
    let ghost whole = arguments(s@);
    let mut parts: Vec<String> = Vec::new();
    let mut i: usize = 0;
    while i < pieces.len()
        invariant
            i <= pieces.len(),
            texts(pieces@) == split(s@, ','),
            whole == arguments(s@),
            texts(parts@) == whole.take(i as int),
        decreases pieces.len() - i,
    {
        let ghost before = texts(parts@);
        let part = unquote_text(trim_text(pieces[i].as_str()).as_str());
        assert(texts(pieces@)[i as int] == pieces@[i as int]@);
        let ghost grown = before.push(part@);
        parts.push(part);
        assert(texts(parts@) =~= grown);
        assert(grown =~= whole.take(i + 1));
        i += 1;
    }
    assert(whole.take(pieces.len() as int) =~= whole) by {
        assert(texts(pieces@).len() == pieces@.len());
    }
    let mut args: Vec<&str> = Vec::new();
    let mut j: usize = 0;
    while j < parts.len()
        invariant
            j <= parts.len(),
            texts(parts@) == whole,
            slice_texts(args@) == whole.take(j as int),
        decreases parts.len() - j,
    {
        let ghost before = slice_texts(args@);
        assert(texts(parts@)[j as int] == parts@[j as int]@);
        args.push(parts[j].as_str());
        assert(slice_texts(args@) =~= before.push(whole[j as int]));
        assert(slice_texts(args@) =~= whole.take(j + 1));
        j += 1;
    }
    assert(whole.take(parts.len() as int) =~= whole) by {
        assert(texts(parts@).len() == parts@.len());
    }
    KernelEventArgs::from_vec(args.as_slice())
}

/// Whether a return value is written in base sixteen.
pub open spec fn hexadecimal(s: Seq<char>) -> bool {
    begins_with(s, "0x"@) || begins_with(s, "0X"@)
}

/// The return value that `s` stands for, if it is a number.
pub open spec fn return_value_of(s: Seq<char>) -> Option<int> {
    let value = if hexadecimal(s) {
        signed_value(s.skip(2), 16)
    } else {
        signed_value(s, 10)
    };
    match value {
        Ok(n) => Some(n),
        Err(_) => None,
    }
}

/// The return value that `s` stands for, if it is a number.
pub fn parse_return_value(s: &str) -> (r: Option<i64>)
    ensures
        match r {
            Some(n) => return_value_of(s@) == Some(n as int),
            None => return_value_of(s@) is None,
        },
{
    proof {
        reveal_strlit("0x");
        reveal_strlit("0X");
        assert(s@.skip(0) =~= s@);
    }
    let value = if starts_with(s, "0x") || starts_with(s, "0X") {
        read_signed(s, 2, 16)
    } else {
        read_signed(s, 0, 10)
    };
    match value {
        Ok(n) => Some(n),
        Err(_) => None,
    }
}

// ---------------------------------------------------------------------------
// Lines
// ---------------------------------------------------------------------------

/// Line-level parsed representation.
#[derive(Debug, Clone)]
pub struct ParsedLine {
    pub timestamp_ns: u64,
    pub event_type: KernelEventType,
    pub args: KernelEventArgs,
    pub return_value: Option<i64>,
}

/// Whether `p` is what a line with these parts says.
pub open spec fn says(
    p: ParsedLine,
    ts: Seq<char>,
    name: Seq<char>,
    args: Seq<char>,
    ret: Option<Seq<char>>,
) -> bool {
    &&& timestamp_value(ts) == Ok::<nat, CauspanError>(p.timestamp_ns as nat)
    &&& p.event_type == event_of_name(name)
    &&& p.args@ == argument_places(arguments(args))
    &&& match (p.return_value, ret) {
        (Some(n), Some(s)) => return_value_of(s) == Some(n as int),
        (None, Some(s)) => return_value_of(s) is None,
        (Some(_), None) => false,
        (None, None) => true,
    }
}

/// What a line with the timestamp `ts`, the syscall `name`, the arguments `args` and the return
/// value `ret` says.
pub fn parse_parts(ts: &str, name: &str, args: &str, ret: Option<&str>) -> (r: Result<
    ParsedLine,
    CauspanError,
>)
    requires
        timestamp_fits(ts@),
    ensures
        match r {
            Ok(p) => says(
                p,
                ts@,
                name@,
                args@,
                match ret {
                    Some(s) => Some(s@),
                    None => None,
                },
            ),
            Err(e) => timestamp_value(ts@) == Err::<nat, CauspanError>(e),
        },
{
    match parse_timestamp_ns(ts) {
        Err(e) => Err(e),
        Ok(timestamp_ns) => {
            let return_value = match ret {
                Some(s) => parse_return_value(s),
                None => None,
            };
            Ok(
                ParsedLine {
                    timestamp_ns,
                    event_type: syscall_name_to_event(name),
                    args: parse_args(args),
                    return_value,
                },
            )
        },
    }
}

/// What the groups `names` of the regular expression `pattern` match in `text`: nothing where
/// the expression is not valid; else the leftmost match, if there is one, as the text of each
/// group that takes part in it.
pub uninterp spec fn regex_groups(
    pattern: Seq<char>,
    text: Seq<char>,
    names: Seq<Seq<char>>,
) -> Option<Option<Seq<Option<Seq<char>>>>>;

/// The texts of a list of groups.
pub open spec fn group_texts(groups: Seq<Option<String>>) -> Seq<Option<Seq<char>>> {
    groups.map_values(|g: Option<String>| optional_text(g))
}

/// The form of a line: a timestamp, perhaps a thread, the name of a syscall with its arguments,
/// and perhaps its return value.
pub fn line_pattern() -> (r: &'static str)
    ensures
        r@ == spec_line_pattern(),
{
    "^(?P<ts>\\d+\\.\\d+)(?:\\s+(?P<pid_tid>\\d+))?\\s+(?P<name>\\w+)\\((?P<args>[^)]*)\\)(?:\\s+=\\s+(?P<ret>-?\\d+|[a-fx0-9]+))?"
}

/// The form of a line.
pub open spec fn spec_line_pattern() -> Seq<char> {
    "^(?P<ts>\\d+\\.\\d+)(?:\\s+(?P<pid_tid>\\d+))?\\s+(?P<name>\\w+)\\((?P<args>[^)]*)\\)(?:\\s+=\\s+(?P<ret>-?\\d+|[a-fx0-9]+))?"@
}

/// The groups of a line that are read.
pub open spec fn line_group_names() -> Seq<Seq<char>> {
    seq!["ts"@, "name"@, "args"@, "ret"@]
}

/// `Regex::new`, `Regex::captures` and `Captures::name`: the groups `names` of the first match
/// of `pattern` in `text`, for the pattern of a line. The result is a function of the three texts;
/// it has one place for each name. The pattern is a valid expression, and in each match of it the
/// groups of the timestamp, the name and the arguments take part.
#[verifier::external_body]
fn regex_captures(pattern: &str, text: &str, names: &[&str]) -> (r: Option<
    Option<Vec<Option<String>>>,
>)
    requires
        pattern@ == spec_line_pattern(),
    ensures
        (match r {
            Some(Some(groups)) => Some(Some(group_texts(groups@))),
            Some(None) => Some(None),
            None => None,
        }) == regex_groups(pattern@, text@, slice_texts(names@)),
        r matches Some(Some(groups)) ==> groups@.len() == names@.len(),
        r is Some,
        slice_texts(names@) == line_group_names() ==> (r matches Some(Some(groups)) ==> groups@[0]
            is Some && groups@[1] is Some && groups@[2] is Some),
{
    let re = Regex::new(pattern).ok()?;
    let group = |caps: &regex::Captures, n: &str| caps.name(n).map(|m| m.as_str().to_string());
    Some(re.captures(text).map(|caps| names.iter().map(|n| group(&caps, n)).collect()))
}

/// The groups of a line, if it has the form of a syscall.
pub open spec fn line_groups(line: Seq<char>) -> Option<Seq<Option<Seq<char>>>> {
    regex_groups(spec_line_pattern(), line, line_group_names())->0
}

/// Whether the timestamp of the line, where it has one that can be read, fits in 64 bits of
/// nanoseconds.
pub open spec fn line_fits(line: Seq<char>) -> bool {
    match line_groups(line) {
        Some(groups) => timestamp_fits(groups[0]->0),
        None => true,
    }
}

/// Whether `r` is what the line says: nothing where it has not the form of a syscall, such as
/// `+++ exited`.
pub open spec fn line_says(r: Result<Option<ParsedLine>, CauspanError>, line: Seq<char>) -> bool {
    match line_groups(line) {
        None => r == Ok::<Option<ParsedLine>, CauspanError>(None),
        Some(groups) => match r {
            Ok(Some(p)) => says(p, groups[0]->0, groups[1]->0, groups[2]->0, groups[3]),
            Ok(None) => false,
            Err(e) => timestamp_value(groups[0]->0) == Err::<nat, CauspanError>(e),
        },
    }
}

/// The groups of a line, if it has the form of a syscall.
fn read_groups(line: &str) -> (r: Option<Vec<Option<String>>>)
    ensures
        match r {
            Some(groups) => {
                &&& line_groups(line@) == Some(group_texts(groups@))
                &&& groups@.len() == 4
                &&& groups@[0] is Some
                &&& groups@[1] is Some
                &&& groups@[2] is Some
            },
            None => line_groups(line@) is None,
        },
{
    let mut names: Vec<&str> = Vec::new();
    names.push("ts");
    names.push("name");
    names.push("args");
    names.push("ret");
    assert(slice_texts(names@) =~= line_group_names());
    match regex_captures(line_pattern(), line, names.as_slice()) {
        Some(found) => found,
        None => None,
    }
}

/// Parse a single `strace -f -ff -ttt` line.
///
/// With `-ttt`, each file has one thread, and no PID/TID stands on each line:
///
/// ```text
/// 12345.678901234  openat(AT_FDCWD, "/tmp/causpan/rpc-1-read.bin", O_RDONLY) = 3
/// 12345.679012345  read(3, "rpc-1-seed\n", 4096)     = 12
/// ```
///
/// The timestamp is in seconds with microsecond (or better) precision; it is
/// converted to nanoseconds.
pub fn parse_strace_line(line: &str) -> (r: Result<Option<ParsedLine>, CauspanError>)
    requires
        line_fits(line@),
    ensures
        line_says(r, line@),
{
    match read_groups(line) {
        None => Ok(None),
        Some(groups) => {
            let ghost g = group_texts(groups@);
            assert(g[0] == optional_text(groups@[0]));
            assert(g[1] == optional_text(groups@[1]));
            assert(g[2] == optional_text(groups@[2]));
            assert(g[3] == optional_text(groups@[3]));
            match (&groups[0], &groups[1], &groups[2]) {
                (Some(ts), Some(name), Some(args)) => {
                    let ret = match &groups[3] {
                        Some(s) => Some(s.as_str()),
                        None => None,
                    };
                    match parse_parts(ts.as_str(), name.as_str(), args.as_str(), ret) {
                        Ok(p) => Ok(Some(p)),
                        Err(e) => Err(e),
                    }
                },
                _ => {
                    // These groups take part in every match.
                    assert(false);
                    Ok(None)
                },
            }
        },
    }
}

/// What [`parse_strace_line`] makes of the line; `None` where the nanoseconds of its timestamp
/// do not fit in 64 bits, or the timestamp has more than nine digits after the point.
pub fn checked_parse_strace_line(line: &str) -> (r: Option<
    Result<Option<ParsedLine>, CauspanError>,
>)
    ensures
        match r {
            Some(parsed) => line_fits(line@) && line_says(parsed, line@),
            None => !line_fits(line@),
        },
{
    if let Some(groups) = read_groups(line) {
        assert(group_texts(groups@)[0] == optional_text(groups@[0]));
        if let Some(ts) = &groups[0] {
            if !timestamp_is_representable(ts.as_str()) {
                return None;
            }
        }
    }
    Some(parse_strace_line(line))
}

// ---------------------------------------------------------------------------
// Processes and threads
// ---------------------------------------------------------------------------

/// The thread-group leader that a line of `/proc/<tid>/status` names.
pub open spec fn tgid_of_line(line: Seq<char>) -> Option<nat> {
    if begins_with(line, "Tgid:"@) && words(line).len() > 1 {
        match unsigned_value(words(line)[1], u32::MAX as nat) {
            Ok(n) => Some(n),
            Err(_) => None,
        }
    } else {
        None
    }
}

/// The thread-group leader that the first of `ls` to name one names; else `tid`.
pub open spec fn tgid_of_lines(ls: Seq<Seq<char>>, tid: nat) -> nat
    decreases ls.len(),
{
    if ls.len() == 0 {
        tid
    } else {
        match tgid_of_line(ls[0]) {
            Some(n) => n,
            None => tgid_of_lines(ls.skip(1), tid),
        }
    }
}

/// The thread-group leader PID (Tgid) that the text of `/proc/<tid>/status` gives; the thread
/// itself where it gives none. All threads in a process share the same Tgid.
pub fn tgid_from_status(content: &str, tid: u32) -> (r: u32)
    ensures
        r == tgid_of_lines(lines(content@), tid as nat),
{
    let ls = lines_of(content);
    let ghost all = lines(content@);
    let mut i: usize = 0;
    assert(all.skip(0) =~= all);
    while i < ls.len()
        invariant
            i <= ls.len(),
            all == lines(content@),
            texts(ls@) == all,
            tgid_of_lines(all, tid as nat) == tgid_of_lines(all.skip(i as int), tid as nat),
        decreases ls.len() - i,
    {
        assert(texts(ls@)[i as int] == ls@[i as int]@);
        let ghost rest = all.skip(i as int);
        assert(rest[0] == all[i as int]);
        assert(rest.skip(1) =~= all.skip(i + 1));
        if starts_with(ls[i].as_str(), "Tgid:") {
            let parts = words_of(ls[i].as_str());
            assert(texts(parts@).len() == parts@.len());
            if parts.len() > 1 {
                assert(texts(parts@)[1] == parts@[1]@);
                if let Ok(tgid) = read_unsigned(parts[1].as_str(), u32::MAX as u64) {
                    return tgid as u32;
                }
            }
        }
        i += 1;
    }
    assert(texts(ls@).len() == ls@.len());
    tid
}

/// The process that the text of a pid file names.
pub fn pid_from_file_text(content: &str) -> (r: Option<u32>)
    ensures
        match r {
            Some(pid) => unsigned_value(trim(content@), u32::MAX as nat) == Ok::<nat, NumberError>(
                pid as nat,
            ),
            None => unsigned_value(trim(content@), u32::MAX as nat) is Err,
        },
{
    match read_unsigned(trim_text(content).as_str(), u32::MAX as u64) {
        Ok(pid) => Some(pid as u32),
        Err(_) => None,
    }
}

/// The text of an optional slice.
pub open spec fn slice_text(s: Option<&str>) -> Option<Seq<char>> {
    match s {
        Some(t) => Some(t@),
        None => None,
    }
}

/// The process that the text of a pid file names, if there is such a text.
pub open spec fn named_process(pid_file: Option<Seq<char>>) -> Option<nat> {
    match pid_file {
        Some(content) => match unsigned_value(trim(content), u32::MAX as nat) {
            Ok(pid) => Some(pid),
            Err(_) => None,
        },
        None => None,
    }
}

/// The process of the thread `tid`: the one that the workload's pid file names, where it names
/// any; else the thread-group leader that `/proc/<tid>/status` gives; else the thread itself.
pub open spec fn spec_process(
    pid_file: Option<Seq<char>>,
    status: Option<Seq<char>>,
    tid: nat,
) -> nat {
    match named_process(pid_file) {
        Some(pid) => pid,
        None => match status {
            Some(content) => tgid_of_lines(lines(content), tid),
            None => tid,
        },
    }
}

/// The process of the thread `tid`, from the text of the workload's pid file and that of
/// `/proc/<tid>/status`. The pid file comes first because the status is not available after the
/// traced process has exited.
pub fn process_of(pid_file: Option<&str>, status: Option<&str>, tid: u32) -> (r: u32)
    ensures
        r == spec_process(slice_text(pid_file), slice_text(status), tid as nat),
{
    if let Some(content) = pid_file {
        if let Some(pid) = pid_from_file_text(content) {
            return pid;
        }
    }
    match status {
        Some(content) => tgid_from_status(content, tid),
        None => tid,
    }
}

/// The thread that a file name ends in.
pub open spec fn tid_of_name(name: Seq<char>) -> Option<u32> {
    match unsigned_value(split(name, '.').last(), u32::MAX as nat) {
        Ok(tid) => Some(tid as u32),
        Err(_) => None,
    }
}

/// strace -ff names files `strace.<tid>`.  Extract the TID.
pub fn tid_from_filename(name: &str) -> (r: Option<u32>)
    ensures
        r == tid_of_name(name@),
{
    let parts = split_text(name, '.');
    proof {
        lemma_split_nonempty(name@, '.');
        assert(texts(parts@).len() == parts@.len());
        assert(texts(parts@).last() == parts@[parts@.len() - 1]@);
    }
    match read_unsigned(parts[parts.len() - 1].as_str(), u32::MAX as u64) {
        Ok(tid) => Some(tid as u32),
        Err(_) => None,
    }
}

} // verus!
