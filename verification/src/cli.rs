//! The command line of the `exprlang` program.
//!
//! `exprlang [OPTIONS] [script.expr]` with the options `-s/--max-steps N`
//! (also `--max-steps=N`), `-V/--version` and `-h/--help`. The arguments are
//! read into a [`Command`]; running it is left to the program.

use vstd::prelude::*;
use crate::text::{decimal, decimal_value, is_ascii_digit, law_decimal_round_trip, spells, chars_of, string_of};

verus! {

/// What the program was asked to do.
#[derive(Debug, PartialEq)]
pub enum Command {
    /// Print the version and exit.
    Version,
    /// Print the help text and exit.
    Help,
    /// Run a script file with a step limit.
    Script { path: String, max_steps: i64 },
    /// Start the interactive REPL with a step limit.
    Repl { max_steps: i64 },
}

/// The step limit when none is given: unlimited.
pub const DEFAULT_MAX_STEPS: i64 = -1;

/// `s` is made of one or more ASCII digits.
pub open spec fn all_digits(s: Seq<char>) -> bool {
    s.len() > 0 && forall|i: int| 0 <= i < s.len() ==> is_ascii_digit(#[trigger] s[i])
}

/// The `i64` that `s` spells: an optional `+` or `-` followed by decimal
/// digits, in range (what `str::parse::<i64>` accepts).
pub open spec fn parsed_i64(s: Seq<char>) -> Option<int> {
    let neg = s.len() > 0 && s[0] == '-';
    let digits = if s.len() > 0 && (s[0] == '-' || s[0] == '+') {
        s.drop_first()
    } else {
        s
    };
    let v = if neg {
        -decimal_value(digits)
    } else {
        decimal_value(digits) as int
    };
    if all_digits(digits) && i64::MIN <= v <= i64::MAX {
        Some(v)
    } else {
        None
    }
}

proof fn lemma_decimal_value_grows(s: Seq<char>, i: int, j: int)
    requires
        0 <= i <= j <= s.len(),
    ensures
        decimal_value(s.take(i)) <= decimal_value(s.take(j)),
    decreases j - i,
{
    if i < j {
        lemma_decimal_value_grows(s, i, j - 1);
        assert(s.take(j).drop_last() == s.take(j - 1));
    }
}

/// Reads an `i64` written in decimal, with an optional sign.
pub fn parse_i64(s: &Vec<char>) -> (r: Option<i64>)
    ensures
        match parsed_i64(s@) {
            Some(v) => r == Some(v as i64),
            None => r is None,
        },
{
    let n = s.len();
    let neg = n > 0 && s[0] == '-';
    let start: usize = if n > 0 && (s[0] == '-' || s[0] == '+') {
        1
    } else {
        0
    };
    let ghost digits = s@.subrange(start as int, n as int);
    assert(digits == (if s@.len() > 0 && (s@[0] == '-' || s@[0] == '+') {
        s@.drop_first()
    } else {
        s@
    }));
    if start >= n {
        return None;
    }
    let limit: u128 = if neg {
        0x8000_0000_0000_0000
    } else {
        0x7fff_ffff_ffff_ffff
    };
    let mut acc: u128 = 0;
    let mut i: usize = start;
    while i < n
        invariant
            start <= i <= n,
            n == s@.len(),
            digits == s@.subrange(start as int, n as int),
            acc == decimal_value(digits.take(i - start)),
            acc <= limit,
            limit == (if neg {
                0x8000_0000_0000_0000u128
            } else {
                0x7fff_ffff_ffff_ffffu128
            }),
            neg == (s@.len() > 0 && s@[0] == '-'),
            digits == (if s@.len() > 0 && (s@[0] == '-' || s@[0] == '+') {
                s@.drop_first()
            } else {
                s@
            }),
            forall|j: int| 0 <= j < i - start ==> is_ascii_digit(#[trigger] digits[j]),
        decreases n - i,
    {
        let c = s[i];
        if !('0' <= c && c <= '9') {
            assert(digits[i - start] == c);
            return None;
        }
        let d: u128 = (c as u32 - '0' as u32) as u128;
        let ghost k = i - start;
        assert(digits.take(k + 1).drop_last() == digits.take(k));
        assert(digits.take(k + 1).last() == c);
        acc = acc * 10 + d;
        i = i + 1;
        if acc > limit {
            proof {
                lemma_decimal_value_grows(digits, k + 1, digits.len() as int);
                assert(digits.take(digits.len() as int) == digits);
            }
            return None;
        }
    }
    assert(digits.take(n - start) == digits);
    if neg {
        if acc == 0x8000_0000_0000_0000 {
            Some(i64::MIN)
        } else {
            Some(-(acc as i64))
        }
    } else {
        Some(acc as i64)
    }
}

/// The options read so far: the step limit, the script, and the flags.
pub struct CliState {
    pub max_steps: int,
    pub file: Option<Seq<char>>,
    pub version: bool,
    pub help: bool,
}

/// The text of an optional string.
pub open spec fn opt_text(o: Option<String>) -> Option<Seq<char>> {
    match o {
        Some(f) => Some(f@),
        None => None,
    }
}

/// `s` starts with `p`.
pub open spec fn starts_with(s: Seq<char>, p: Seq<char>) -> bool {
    s.len() >= p.len() && s.subrange(0, p.len() as int) == p
}

/// `--max-steps=`
pub open spec fn max_steps_eq() -> Seq<char> {
    seq!['-', '-', 'm', 'a', 'x', '-', 's', 't', 'e', 'p', 's', '=']
}

/// The options given by `args[i..]`, starting from `st`, or the error that
/// stops the program.
pub open spec fn read_args(args: Seq<Seq<char>>, i: int, st: CliState) -> Result<CliState, Seq<char>>
    decreases args.len() - i,
{
    if i < 0 || i >= args.len() {
        Ok(st)
    } else {
        let a = args[i];
        if a == seq!['-', '-', 'v', 'e', 'r', 's', 'i', 'o', 'n'] || a == seq!['-', 'V'] {
            read_args(args, i + 1, CliState { version: true, ..st })
        } else if a == seq!['-', '-', 'h', 'e', 'l', 'p'] || a == seq!['-', 'h'] {
            read_args(args, i + 1, CliState { help: true, ..st })
        } else if a == seq!['-', '-', 'm', 'a', 'x', '-', 's', 't', 'e', 'p', 's'] || a == seq!['-', 's'] {
            if i + 1 >= args.len() {
                Err("Option '"@ + a + "' requires a value"@)
            } else {
                match parsed_i64(args[i + 1]) {
                    None => Err(
                        "Invalid value for '"@ + a + "': '"@ + args[i + 1] + "' (expected an integer)"@,
                    ),
                    Some(n) => read_args(args, i + 2, CliState { max_steps: n, ..st }),
                }
            }
        } else if starts_with(a, max_steps_eq()) {
            let v = a.subrange(12, a.len() as int);
            match parsed_i64(v) {
                None => Err("Invalid value for --max-steps: '"@ + v + "' (expected an integer)"@),
                Some(n) => read_args(args, i + 1, CliState { max_steps: n, ..st }),
            }
        } else if a.len() > 1 && a[0] == '-' {
            Err("Unknown option: "@ + a)
        } else if st.file is Some {
            Err("Unexpected argument: "@ + a)
        } else {
            read_args(args, i + 1, CliState { file: Some(a), ..st })
        }
    }
}

/// The options before any argument is read.
pub open spec fn initial_state() -> CliState {
    CliState { max_steps: DEFAULT_MAX_STEPS as int, file: None, version: false, help: false }
}

proof fn lemma_read_limit(args: Seq<Seq<char>>, i: int, st: CliState, n: int)
    requires
        0 <= i,
        i + 1 < args.len(),
        args[i] == seq!['-', 's'] || args[i] == seq![
            '-',
            '-',
            'm',
            'a',
            'x',
            '-',
            's',
            't',
            'e',
            'p',
            's',
        ],
        parsed_i64(args[i + 1]) == Some(n),
    ensures
        read_args(args, i, st) == read_args(args, i + 2, CliState { max_steps: n, ..st }),
{
    let a = args[i];
    assert(a.len() >= 2 && a[0] == '-' && (a[1] == 's' || a[1] == '-'));
    assert(a != seq!['-', '-', 'v', 'e', 'r', 's', 'i', 'o', 'n']) by {
        if a.len() == 9 {
            assert(a[2] == 'm');
        }
    }
    assert(a != seq!['-', 'V']);
    assert(a != seq!['-', '-', 'h', 'e', 'l', 'p']);
    assert(a != seq!['-', 'h']);
}

proof fn lemma_read_path(args: Seq<Seq<char>>, i: int, st: CliState)
    requires
        0 <= i < args.len(),
        !(args[i].len() > 1 && args[i][0] == '-'),
        st.file is None,
    ensures
        read_args(args, i, st) == read_args(args, i + 1, CliState { file: Some(args[i]), ..st }),
{
    let a = args[i];
    assert(a != seq!['-', '-', 'v', 'e', 'r', 's', 'i', 'o', 'n']);
    assert(a != seq!['-', 'V']);
    assert(a != seq!['-', '-', 'h', 'e', 'l', 'p']);
    assert(a != seq!['-', 'h']);
    assert(a != seq!['-', '-', 'm', 'a', 'x', '-', 's', 't', 'e', 'p', 's']);
    assert(a != seq!['-', 's']);
    assert(!starts_with(a, max_steps_eq())) by {
        if starts_with(a, max_steps_eq()) {
            assert(a.subrange(0, 12)[0] == a[0]);
        }
    }
}

/// The step limit given with `-s N` or `--max-steps N` reaches the command
/// that runs: the REPL when no script is named, the script when one is.
pub proof fn law_max_steps_reach_command(
    flag: Seq<char>,
    v: Seq<char>,
    path: Seq<char>,
    n: int,
    c: Command,
    d: Command,
)
    requires
        flag == seq!['-', 's'] || flag == seq!['-', '-', 'm', 'a', 'x', '-', 's', 't', 'e', 'p', 's'],
        parsed_i64(v) == Some(n),
        !(path.len() > 1 && path[0] == '-'),
    ensures
        read_args(seq![flag, v], 0, initial_state()) is Ok,
        read_args(seq![flag, v], 0, initial_state()) matches Ok(st) && command_matches(c, st)
            ==> c == (Command::Repl { max_steps: n as i64 }),
        read_args(seq![flag, v, path], 0, initial_state()) is Ok,
        read_args(seq![flag, v, path], 0, initial_state()) matches Ok(st) && command_matches(d, st)
            ==> (d matches Command::Script { path: p, max_steps } && p@ == path && max_steps == n),
{
    let a2 = seq![flag, v];
    let a3 = seq![flag, v, path];
    let st0 = initial_state();
    let st1 = CliState { max_steps: n, ..st0 };
    assert(a2[0] == flag && a2[1] == v && a2.len() == 2);
    assert(a3[0] == flag && a3[1] == v && a3[2] == path && a3.len() == 3);
    lemma_read_limit(a2, 0, st0, n);
    assert(read_args(a2, 2, st1) == Ok::<CliState, Seq<char>>(st1));
    lemma_read_limit(a3, 0, st0, n);
    lemma_read_path(a3, 2, st1);
    let st2 = CliState { file: Some(path), ..st1 };
    assert(read_args(a3, 3, st2) == Ok::<CliState, Seq<char>>(st2));
}

/// A number written in decimal reads back as that number: `N`, `+N` and
/// `-N` give `N`, `N` and `-N` for every `N` in the range of `i64`.
pub proof fn law_parse_i64_reads_decimal(n: nat)
    ensures
        n <= i64::MAX ==> parsed_i64(decimal(n)) == Some(n as int),
        n <= i64::MAX ==> parsed_i64(seq!['+'] + decimal(n)) == Some(n as int),
        n <= 0x8000_0000_0000_0000 ==> parsed_i64(seq!['-'] + decimal(n)) == Some(-n),
{
    law_decimal_round_trip(n);
    let d = decimal(n);
    assert(all_digits(d));
    assert(d[0] != '-' && d[0] != '+');
    assert((seq!['+'] + d).drop_first() == d);
    assert((seq!['-'] + d).drop_first() == d);
    assert((seq!['+'] + d)[0] == '+');
    assert((seq!['-'] + d)[0] == '-');
}

proof fn lemma_read_limit_eq(args: Seq<Seq<char>>, i: int, st: CliState, n: int)
    requires
        0 <= i < args.len(),
        starts_with(args[i], max_steps_eq()),
        parsed_i64(args[i].subrange(12, args[i].len() as int)) == Some(n),
    ensures
        read_args(args, i, st) == read_args(args, i + 1, CliState { max_steps: n, ..st }),
{
    let a = args[i];
    assert(a.subrange(0, 12) == max_steps_eq());
    assert(a[2] == a.subrange(0, 12)[2]);
    assert(a[11] == a.subrange(0, 12)[11]);
    assert(a != seq!['-', '-', 'v', 'e', 'r', 's', 'i', 'o', 'n']);
    assert(a != seq!['-', 'V']);
    assert(a != seq!['-', '-', 'h', 'e', 'l', 'p']);
    assert(a != seq!['-', 'h']);
    assert(a != seq!['-', '-', 'm', 'a', 'x', '-', 's', 't', 'e', 'p', 's']);
    assert(a != seq!['-', 's']);
}

/// `--max-steps=N` sets the step limit of the REPL (or of a script named
/// after it) to `N`, as `--max-steps N` does.
pub proof fn law_max_steps_inline_form(
    v: Seq<char>,
    path: Seq<char>,
    n: int,
    c: Command,
    d: Command,
)
    requires
        parsed_i64(v) == Some(n),
        !(path.len() > 1 && path[0] == '-'),
    ensures
        read_args(seq![max_steps_eq() + v], 0, initial_state()) is Ok,
        read_args(seq![max_steps_eq() + v], 0, initial_state()) matches Ok(st) && command_matches(
            c,
            st,
        ) ==> c == (Command::Repl { max_steps: n as i64 }),
        read_args(seq![max_steps_eq() + v, path], 0, initial_state()) is Ok,
        read_args(seq![max_steps_eq() + v, path], 0, initial_state()) matches Ok(st)
            && command_matches(d, st) ==> (d matches Command::Script { path: p, max_steps } && p@
            == path && max_steps == n),
{
    let a = max_steps_eq() + v;
    assert(a.subrange(0, 12) == max_steps_eq());
    assert(a.subrange(12, a.len() as int) == v);
    let a1 = seq![a];
    let a2 = seq![a, path];
    let st0 = initial_state();
    let st1 = CliState { max_steps: n, ..st0 };
    assert(a1[0] == a && a1.len() == 1);
    assert(a2[0] == a && a2[1] == path && a2.len() == 2);
    lemma_read_limit_eq(a1, 0, st0, n);
    assert(read_args(a1, 1, st1) == Ok::<CliState, Seq<char>>(st1));
    lemma_read_limit_eq(a2, 0, st0, n);
    lemma_read_path(a2, 1, st1);
    let st2 = CliState { file: Some(path), ..st1 };
    assert(read_args(a2, 2, st2) == Ok::<CliState, Seq<char>>(st2));
}

/// `-V` (or `--version`) asks for the version and `-h` (or `--help`) for the
/// help text, whichever other arguments come with them; the version wins
/// when both are given.
pub proof fn law_version_and_help(a: Seq<char>, c: Command)
    requires
        a == seq!['-', 'V'] || a == seq!['-', '-', 'v', 'e', 'r', 's', 'i', 'o', 'n'] || a == seq![
            '-',
            'h',
        ] || a == seq!['-', '-', 'h', 'e', 'l', 'p'],
    ensures
        read_args(seq![a], 0, initial_state()) is Ok,
        (a == seq!['-', 'V'] || a == seq!['-', '-', 'v', 'e', 'r', 's', 'i', 'o', 'n']) ==> (read_args(
            seq![a],
            0,
            initial_state(),
        ) matches Ok(st) && command_matches(c, st) ==> c == Command::Version),
        (a == seq!['-', 'h'] || a == seq!['-', '-', 'h', 'e', 'l', 'p']) ==> (read_args(
            seq![a],
            0,
            initial_state(),
        ) matches Ok(st) && command_matches(c, st) ==> c == Command::Help),
        read_args(seq![seq!['-', 'h'], seq!['-', 'V']], 0, initial_state()) matches Ok(st)
            && command_matches(c, st) ==> c == Command::Version,
{
    let a1 = seq![a];
    assert(a1[0] == a && a1.len() == 1);
    assert(a.len() >= 2);
    let h = seq!['-', 'h'];
    let v = seq!['-', 'V'];
    let a2 = seq![h, v];
    assert(a2[0] == h && a2[1] == v && a2.len() == 2);
    assert(h != seq!['-', '-', 'v', 'e', 'r', 's', 'i', 'o', 'n']);
    assert(h != v);
    let st0 = initial_state();
    let sth = CliState { help: true, ..st0 };
    let sthv = CliState { version: true, ..sth };
    assert(read_args(a2, 2, sthv) == Ok::<CliState, Seq<char>>(sthv));
    assert(read_args(a2, 1, sth) == read_args(a2, 2, sthv));
    assert(read_args(a2, 0, st0) == read_args(a2, 1, sth));
    if a == v || a == seq!['-', '-', 'v', 'e', 'r', 's', 'i', 'o', 'n'] {
        let stv = CliState { version: true, ..st0 };
        assert(read_args(a1, 1, stv) == Ok::<CliState, Seq<char>>(stv));
        assert(read_args(a1, 0, st0) == read_args(a1, 1, stv));
    } else {
        assert(a != seq!['-', '-', 'v', 'e', 'r', 's', 'i', 'o', 'n']);
        assert(a != v);
        assert(read_args(a1, 1, sth) == Ok::<CliState, Seq<char>>(sth));
        assert(read_args(a1, 0, st0) == read_args(a1, 1, sth));
    }
}

/// `--version` wins over `--help`, which wins over running a script or the REPL.
pub open spec fn command_matches(c: Command, st: CliState) -> bool {
    if st.version {
        c == Command::Version
    } else if st.help {
        c == Command::Help
    } else {
        match st.file {
            Some(f) => c matches Command::Script { path, max_steps } && path@ == f && max_steps
                == st.max_steps,
            None => c matches Command::Repl { max_steps } && max_steps == st.max_steps,
        }
    }
}

/// The command given by the program's arguments (without the program name).
pub fn parse_args(args: &Vec<String>) -> (r: Result<Command, String>)
    ensures
        match read_args(args@.map_values(|a: String| a@), 0, initial_state()) {
            Ok(st) => r matches Ok(c) && command_matches(c, st),
            Err(m) => r matches Err(e) && e@ == m,
        },
{
    let ghost view = args@.map_values(|a: String| a@);
    let mut max_steps: i64 = DEFAULT_MAX_STEPS;
    let mut file: Option<String> = None;
    let mut show_version = false;
    let mut show_help = false;
    let n = args.len();
    let mut i: usize = 0;
    while i < n
        invariant
            n == args@.len(),
            view == args@.map_values(|a: String| a@),
            i <= n,
            read_args(view, i as int, CliState {
                max_steps: max_steps as int,
                file: opt_text(file),
                version: show_version,
                help: show_help,
            }) == read_args(view, 0, initial_state()),
        decreases n - i,
    {
        let ghost st = CliState {
            max_steps: max_steps as int,
            file: opt_text(file),
            version: show_version,
            help: show_help,
        };
        let arg = &args[i];
        let a = chars_of(arg.as_str());
        assert(view[i as int] == a@);
        if spells(&a, &['-', '-', 'v', 'e', 'r', 's', 'i', 'o', 'n']) || spells(&a, &['-', 'V']) {
            show_version = true;
            i = i + 1;
        } else if spells(&a, &['-', '-', 'h', 'e', 'l', 'p']) || spells(&a, &['-', 'h']) {
            show_help = true;
            i = i + 1;
        } else if spells(&a, &['-', '-', 'm', 'a', 'x', '-', 's', 't', 'e', 'p', 's']) || spells(
            &a,
            &['-', 's'],
        ) {
            if i + 1 >= n {
                let mut m = String::from_str("Option '");
                m.append(arg.as_str());
                m.append("' requires a value");
                return Err(m);
            }
            let val = &args[i + 1];
            assert(view[i + 1] == val@);
            match parse_i64(&chars_of(val.as_str())) {
                Some(v) => {
                    max_steps = v;
                    i = i + 2;
                },
                None => {
                    let mut m = String::from_str("Invalid value for '");
                    m.append(arg.as_str());
                    m.append("': '");
                    m.append(val.as_str());
                    m.append("' (expected an integer)");
                    return Err(m);
                },
            }
        } else if a.len() >= 12 && spells(&prefix_of(&a, 12), &['-', '-', 'm', 'a', 'x', '-', 's', 't', 'e', 'p', 's', '=']) {
            let rest = suffix_from(&a, 12);
            assert(a@.subrange(0, 12) == prefix_of_spec(a@, 12));
            match parse_i64(&rest) {
                Some(v) => {
                    max_steps = v;
                    i = i + 1;
                },
                None => {
                    let mut m = String::from_str("Invalid value for --max-steps: '");
                    m.append(string_of(&rest).as_str());
                    m.append("' (expected an integer)");
                    return Err(m);
                },
            }
        } else if a.len() > 1 && a[0] == '-' {
            let mut m = String::from_str("Unknown option: ");
            m.append(arg.as_str());
            return Err(m);
        } else if file.is_some() {
            let mut m = String::from_str("Unexpected argument: ");
            m.append(arg.as_str());
            return Err(m);
        } else {
            file = Some(arg.clone());
            i = i + 1;
        }
    }
    if show_version {
        Ok(Command::Version)
    } else if show_help {
        Ok(Command::Help)
    } else {
        match file {
            Some(path) => Ok(Command::Script { path, max_steps }),
            None => Ok(Command::Repl { max_steps }),
        }
    }
}

/// The first `k` characters of `s`.
pub open spec fn prefix_of_spec(s: Seq<char>, k: int) -> Seq<char> {
    s.subrange(0, k)
}

/// The first `k` characters of `v`.
fn prefix_of(v: &Vec<char>, k: usize) -> (r: Vec<char>)
    requires
        k <= v@.len(),
    ensures
        r@ == v@.subrange(0, k as int),
{
    let mut r: Vec<char> = Vec::new();
    for i in 0..k
        invariant
            k <= v@.len(),
            r@ == v@.subrange(0, i as int),
    {
        r.push(v[i]);
        assert(v@.subrange(0, i + 1) == v@.subrange(0, i as int).push(v@[i as int]));
    }
    r
}

/// The characters of `v` from index `k` on.
fn suffix_from(v: &Vec<char>, k: usize) -> (r: Vec<char>)
    requires
        k <= v@.len(),
    ensures
        r@ == v@.subrange(k as int, v@.len() as int),
{
    let mut r: Vec<char> = Vec::new();
    let n = v.len();
    for i in k..n
        invariant
            n == v@.len(),
            k <= n,
            r@ == v@.subrange(k as int, i as int),
    {
        r.push(v[i]);
        assert(v@.subrange(k as int, i + 1) == v@.subrange(k as int, i as int).push(v@[i as int]));
    }
    r
}

} // verus!
