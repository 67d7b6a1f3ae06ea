//! The command language of the interactive scanner: splitting a command
//! line, and turning a command's arguments into what to do.
//!
//! Reading lines, printing, and running scans is the caller's part.

use vstd::prelude::*;
use crate::numeral::{parse_int, parse_int_spec};
use crate::scan::{FirstScan, NextScan, ANY_TYPES};
use crate::text::{
    chars_of, is_ws, lit, lower, same_chars, skip_word, split_words, string_of, to_lower, trim,
    trimmed, word_len, words,
};
use crate::value::{type_named, ScanType};

verus! {

/// A command line split into its command word and the rest of the line,
/// trimmed.
pub open spec fn command_parts(line: Seq<char>) -> (Seq<char>, Seq<char>) {
    let k = word_len(line);
    (line.subrange(0, k as int), trim(line.subrange(k as int, line.len() as int)))
}

/// Split an (already trimmed) command line into its command word and the
/// rest of the line, trimmed.
pub fn split_command(line: &str) -> (r: (String, String))
    requires
        line@.len() == 0 || !is_ws(line@[0]),
    ensures
        (r.0@, r.1@) == command_parts(line@),
{
    let cs = chars_of(line);
    let k = skip_word(cs.as_slice(), 0);
    assert(cs@.subrange(0, cs@.len() as int) =~= cs@);
    let cmd = vstd::slice::slice_subrange(cs.as_slice(), 0, k);
    let rest = trimmed(vstd::slice::slice_subrange(cs.as_slice(), k, cs.len()));
    (string_of(cmd), string_of(rest.as_slice()))
}

/// `s` equals the literal `t`.
fn is_word(s: &[char], t: &str) -> (r: bool)
    ensures
        r == (s@ == t@),
{
    same_chars(s, lit(t).as_slice())
}

/// What `next <op> [value]` asks for: the comparison and its operand, or
/// the usage line to show.
pub open spec fn next_plan(rest: Seq<char>) -> Result<(NextScan, Option<Seq<char>>), Seq<char>> {
    let ws = words(rest);
    let op = if ws.len() > 0 {
        ws[0]
    } else {
        ""@
    };
    let operand = if ws.len() > 1 {
        Some(ws[1])
    } else {
        None
    };
    if op == "inc"@ || op == "+"@ || op == "increased"@ {
        Ok((NextScan::Increased, None))
    } else if op == "dec"@ || op == "-"@ || op == "decreased"@ {
        Ok((NextScan::Decreased, None))
    } else if op == "unchanged"@ || op == "same"@ {
        Ok((NextScan::Unchanged, None))
    } else if op == "changed"@ {
        Ok((NextScan::Changed, None))
    } else if op == "!="@ || op == "<>"@ || op == "ne"@ {
        match operand {
            Some(v) => Ok((NextScan::Ne, Some(v))),
            None => Ok((NextScan::Changed, None)),
        }
    } else if op == ">"@ || op == "gt"@ {
        match operand {
            Some(v) => Ok((NextScan::Gt, Some(v))),
            None => Err("usage: next > <value>"@),
        }
    } else if op == "<"@ || op == "lt"@ {
        match operand {
            Some(v) => Ok((NextScan::Lt, Some(v))),
            None => Err("usage: next < <value>"@),
        }
    } else if op == "="@ || op == "eq"@ {
        match operand {
            Some(v) => Ok((NextScan::Eq, Some(v))),
            None => Err("usage: next = <value>"@),
        }
    } else if op.len() > 0 {
        Ok((NextScan::Eq, Some(op)))
    } else {
        Err("usage: next <inc|dec|changed|unchanged|> N|< N|= N|!= N|VALUE>"@)
    }
}

/// What each operator word of `next` means, given the words of its
/// arguments: `<`/`lt`, `>`/`gt`, `=`/`eq` and `!=`/`<>`/`ne` followed by
/// a value compare against that value (less, greater, equal, not equal);
/// `inc`/`+`/`increased`, `dec`/`-`/`decreased`, `changed` and
/// `unchanged`/`same` take no value; a comparison that needs a value and has
/// none is refused, except `!=` alone, which means "changed".
pub proof fn law_next_operators(rest: Seq<char>)
    ensures
        ({
            let ws = words(rest);
            let op = if ws.len() > 0 {
                ws[0]
            } else {
                ""@
            };
            let r = next_plan(rest);
            &&& (op == "<"@ || op == "lt"@) ==> (if ws.len() > 1 {
                r == Ok::<(NextScan, Option<Seq<char>>), Seq<char>>((NextScan::Lt, Some(ws[1])))
            } else {
                r is Err
            })
            &&& (op == ">"@ || op == "gt"@) ==> (if ws.len() > 1 {
                r == Ok::<(NextScan, Option<Seq<char>>), Seq<char>>((NextScan::Gt, Some(ws[1])))
            } else {
                r is Err
            })
            &&& (op == "="@ || op == "eq"@) ==> (if ws.len() > 1 {
                r == Ok::<(NextScan, Option<Seq<char>>), Seq<char>>((NextScan::Eq, Some(ws[1])))
            } else {
                r is Err
            })
            &&& (op == "!="@ || op == "<>"@ || op == "ne"@) ==> r == (if ws.len() > 1 {
                Ok::<(NextScan, Option<Seq<char>>), Seq<char>>((NextScan::Ne, Some(ws[1])))
            } else {
                Ok((NextScan::Changed, None))
            })
            &&& (op == "inc"@ || op == "+"@ || op == "increased"@) ==> r == Ok::<
                (NextScan, Option<Seq<char>>),
                Seq<char>,
            >((NextScan::Increased, None))
            &&& (op == "dec"@ || op == "-"@ || op == "decreased"@) ==> r == Ok::<
                (NextScan, Option<Seq<char>>),
                Seq<char>,
            >((NextScan::Decreased, None))
            &&& op == "changed"@ ==> r == Ok::<(NextScan, Option<Seq<char>>), Seq<char>>(
                (NextScan::Changed, None),
            )
            &&& (op == "unchanged"@ || op == "same"@) ==> r == Ok::<
                (NextScan, Option<Seq<char>>),
                Seq<char>,
            >((NextScan::Unchanged, None))
            &&& r matches Ok((how, Some(v))) ==> ws.len() > 0 && (v == ws[0] || (ws.len() > 1
                && v == ws[1]))
            &&& ws.len() == 0 ==> r is Err
        }),
{
    reveal_strlit("<");
    reveal_strlit("lt");
    reveal_strlit(">");
    reveal_strlit("gt");
    reveal_strlit("=");
    reveal_strlit("eq");
    reveal_strlit("!=");
    reveal_strlit("<>");
    reveal_strlit("ne");
    reveal_strlit("inc");
    reveal_strlit("+");
    reveal_strlit("increased");
    reveal_strlit("dec");
    reveal_strlit("-");
    reveal_strlit("decreased");
    reveal_strlit("changed");
    reveal_strlit("unchanged");
    reveal_strlit("same");
    reveal_strlit("");
    assert("<"@[0] == '<');
    assert("lt"@[0] == 'l');
    assert(">"@[0] == '>');
    assert("gt"@[0] == 'g');
    assert("="@[0] == '=');
    assert("eq"@[0] == 'e');
    assert("!="@[0] == '!');
    assert("<>"@[0] == '<');
    assert("ne"@[0] == 'n');
    assert("inc"@[0] == 'i');
    assert("+"@[0] == '+');
    assert("increased"@[0] == 'i');
    assert("dec"@[0] == 'd');
    assert("-"@[0] == '-');
    assert("decreased"@[0] == 'd');
    assert("changed"@[0] == 'c');
    assert("unchanged"@[0] == 'u');
    assert("same"@[0] == 's');
    assert("<"@.len() == 1);
    assert("lt"@.len() == 2);
    assert(">"@.len() == 1);
    assert("gt"@.len() == 2);
    assert("="@.len() == 1);
    assert("eq"@.len() == 2);
    assert("!="@.len() == 2);
    assert("<>"@.len() == 2);
    assert("ne"@.len() == 2);
    assert("inc"@.len() == 3);
    assert("+"@.len() == 1);
    assert("increased"@.len() == 9);
    assert("dec"@.len() == 3);
    assert("-"@.len() == 1);
    assert("decreased"@.len() == 9);
    assert("changed"@.len() == 7);
    assert("unchanged"@.len() == 9);
    assert("same"@.len() == 4);
}

pub open spec fn opt_chars(s: Option<String>) -> Option<Seq<char>> {
    match s {
        Some(x) => Some(x@),
        None => None,
    }
}

/// Parse the arguments of `next`.
pub fn parse_next(rest: &str) -> (r: Result<(NextScan, Option<String>), String>)
    ensures
        match r {
            Ok((how, operand)) => next_plan(rest@) == Ok::<
                (NextScan, Option<Seq<char>>),
                Seq<char>,
            >((how, opt_chars(operand))),
            Err(msg) => next_plan(rest@) == Err::<(NextScan, Option<Seq<char>>), Seq<char>>(
                msg@,
            ),
        },
{
    let ws = split_words(chars_of(rest).as_slice());
    let op: Vec<char> = if ws.len() > 0 {
        vstd::slice::slice_to_vec(ws[0].as_slice())
    } else {
        Vec::new()
    };
    let operand: Option<String> = if ws.len() > 1 {
        Some(string_of(ws[1].as_slice()))
    } else {
        None
    };
    proof {
        reveal_strlit("");
    }
    assert(op@ == (if words(rest@).len() > 0 {
        words(rest@)[0]
    } else {
        ""@
    }));
    let o = op.as_slice();
    if is_word(o, "inc") || is_word(o, "+") || is_word(o, "increased") {
        Ok((NextScan::Increased, None))
    } else if is_word(o, "dec") || is_word(o, "-") || is_word(o, "decreased") {
        Ok((NextScan::Decreased, None))
    } else if is_word(o, "unchanged") || is_word(o, "same") {
        Ok((NextScan::Unchanged, None))
    } else if is_word(o, "changed") {
        Ok((NextScan::Changed, None))
    } else if is_word(o, "!=") || is_word(o, "<>") || is_word(o, "ne") {
        match operand {
            Some(v) => Ok((NextScan::Ne, Some(v))),
            None => Ok((NextScan::Changed, None)),
        }
    } else if is_word(o, ">") || is_word(o, "gt") {
        match operand {
            Some(v) => Ok((NextScan::Gt, Some(v))),
            None => Err("usage: next > <value>".to_string()),
        }
    } else if is_word(o, "<") || is_word(o, "lt") {
        match operand {
            Some(v) => Ok((NextScan::Lt, Some(v))),
            None => Err("usage: next < <value>".to_string()),
        }
    } else if is_word(o, "=") || is_word(o, "eq") {
        match operand {
            Some(v) => Ok((NextScan::Eq, Some(v))),
            None => Err("usage: next = <value>".to_string()),
        }
    } else if o.len() > 0 {
        Ok((NextScan::Eq, Some(string_of(o))))
    } else {
        Err("usage: next <inc|dec|changed|unchanged|> N|< N|= N|!= N|VALUE>".to_string())
    }
}

/// The types a first scan tries: every type of [`ANY_TYPES`] when the type
/// is "any", else the one chosen.
pub open spec fn types_for(any: bool, ty: ScanType) -> Seq<ScanType> {
    if any {
        ANY_TYPES@
    } else {
        seq![ty]
    }
}

/// Types a first scan should try for the current selection.
pub fn scan_types(any: bool, ty: ScanType) -> (r: Vec<ScanType>)
    ensures
        r@ == types_for(any, ty),
{
    let mut v: Vec<ScanType> = Vec::new();
    if any {
        let mut i: usize = 0;
        while i < 6
            invariant
                i <= 6,
                v@ == ANY_TYPES@.subrange(0, i as int),
            decreases 6 - i,
        {
            v.push(ANY_TYPES[i]);
            i = i + 1;
            assert(v@ =~= ANY_TYPES@.subrange(0, i as int));
        }
        assert(ANY_TYPES@.subrange(0, 6) =~= ANY_TYPES@);
    } else {
        v.push(ty);
        assert(v@ =~= seq![ty]);
    }
    v
}

/// The current scan type's label: `any`, or the type's own.
pub fn type_label(any: bool, ty: ScanType) -> (r: String)
    ensures
        r@ == (if any {
            "any"@
        } else {
            ty.label_text()
        }),
{
    if any {
        "any".to_string()
    } else {
        ty.label().to_string()
    }
}

/// What `scan <value>` does.
#[derive(Debug)]
pub enum ScanPlan {
    /// Print this line and scan nothing.
    Say(String),
    /// Run this first scan.
    First(FirstScan),
    /// Already scanned: narrow to addresses now equal to this value.
    Narrow(String),
}

/// The message for an unknown-value scan while the type is "any".
pub open spec fn needs_type_msg() -> Seq<char> {
    "an unknown-value scan needs a concrete type; run e.g. `type i32` first."@
}

/// The message for an unknown-value scan after a first scan.
pub open spec fn already_msg() -> Seq<char> {
    "already scanned; `scan ?` only makes sense as the first scan."@
}

pub open spec fn scan_usage() -> Seq<char> {
    "usage: scan <value> | scan ?   (? = unknown initial value)"@
}

/// Whether `rest` asks for an unknown-value scan (`?` or `unknown` in any
/// case).
pub open spec fn asks_unknown(rest: Seq<char>) -> bool {
    rest == "?"@ || lower(rest) == "unknown"@
}

/// Decide what `scan <rest>` does, given the type selection and whether a
/// first scan has been done.
pub fn scan_plan(rest: &str, any: bool, ty: ScanType, has_scanned: bool) -> (r: ScanPlan)
    ensures
        rest@.len() == 0 ==> (r matches ScanPlan::Say(m) && m@ == scan_usage()),
        rest@.len() > 0 && asks_unknown(rest@) ==> (if any {
            r matches ScanPlan::Say(m) && m@ == needs_type_msg()
        } else if has_scanned {
            r matches ScanPlan::Say(m) && m@ == already_msg()
        } else {
            r matches ScanPlan::First(FirstScan::Unknown(t)) && t == ty
        }),
        rest@.len() > 0 && !asks_unknown(rest@) ==> (if has_scanned {
            r matches ScanPlan::Narrow(v) && v@ == rest@
        } else {
            r matches ScanPlan::First(FirstScan::Value { value, types }) && value@ == rest@
                && types@ == types_for(any, ty)
        }),
{
    let cs = chars_of(rest);
    if cs.len() == 0 {
        return ScanPlan::Say(
            "usage: scan <value> | scan ?   (? = unknown initial value)".to_string(),
        );
    }
    let low = to_lower(cs.as_slice());
    if is_word(cs.as_slice(), "?") || is_word(low.as_slice(), "unknown") {
        if any {
            return ScanPlan::Say(
                "an unknown-value scan needs a concrete type; run e.g. `type i32` first.".to_string(),
            );
        }
        if has_scanned {
            return ScanPlan::Say(
                "already scanned; `scan ?` only makes sense as the first scan.".to_string(),
            );
        }
        return ScanPlan::First(FirstScan::Unknown(ty));
    }
    if has_scanned {
        ScanPlan::Narrow(rest.to_string())
    } else {
        ScanPlan::First(FirstScan::Value { value: rest.to_string(), types: scan_types(any, ty) })
    }
}

/// What `type [t]` asks for.
#[derive(Debug, PartialEq, Eq, Structural)]
pub enum TypeChoice {
    /// No argument: show the current type and the choices.
    Show,
    /// `any`: try every type at once.
    Any,
    /// One named type.
    One(ScanType),
    /// Not a type name.
    Unknown,
}

pub open spec fn type_choice_of(rest: Seq<char>) -> TypeChoice {
    if rest.len() == 0 {
        TypeChoice::Show
    } else if lower(rest) == "any"@ {
        TypeChoice::Any
    } else {
        match type_named(lower(trim(rest))) {
            Some(t) => TypeChoice::One(t),
            None => TypeChoice::Unknown,
        }
    }
}

/// Parse the argument of `type`.
pub fn type_choice(rest: &str) -> (r: TypeChoice)
    ensures
        r == type_choice_of(rest@),
{
    let cs = chars_of(rest);
    if cs.len() == 0 {
        return TypeChoice::Show;
    }
    if is_word(to_lower(cs.as_slice()).as_slice(), "any") {
        return TypeChoice::Any;
    }
    match ScanType::from_label(rest) {
        Some(t) => TypeChoice::One(t),
        None => TypeChoice::Unknown,
    }
}

/// `s` without every leading `0x` (`trim_start_matches("0x")`).
pub open spec fn strip_hex_prefix(s: Seq<char>) -> Seq<char>
    decreases s.len(),
{
    if s.len() >= 2 && s[0] == '0' && s[1] == 'x' {
        strip_hex_prefix(s.subrange(2, s.len() as int))
    } else {
        s
    }
}

/// The address of `write <hex-address> <value>`: hexadecimal, after any
/// number of leading `0x`.
pub fn parse_hex_address(s: &str) -> (r: Option<u64>)
    ensures
        match r {
            Some(a) => parse_int_spec(strip_hex_prefix(s@), 16, 0, u64::MAX as int) == Some(
                a as int,
            ),
            None => parse_int_spec(strip_hex_prefix(s@), 16, 0, u64::MAX as int) is None,
        },
{
    let cs = chars_of(s);
    let n = cs.len();
    let mut i: usize = 0;
    assert(cs@.subrange(0, n as int) =~= cs@);
    while n - i >= 2 && cs[i] == '0' && cs[i + 1] == 'x'
        invariant
            i <= n,
            n == cs@.len(),
            strip_hex_prefix(cs@) == strip_hex_prefix(cs@.subrange(i as int, n as int)),
        decreases n - i,
    {
        proof {
            let t = cs@.subrange(i as int, n as int);
            assert(t[0] == cs@[i as int] && t[1] == cs@[i + 1]);
            assert(t.subrange(2, t.len() as int) =~= cs@.subrange(i + 2, n as int));
        }
        i = i + 2;
    }
    proof {
        let t = cs@.subrange(i as int, n as int);
        if t.len() >= 2 {
            assert(t[0] == cs@[i as int] && t[1] == cs@[i + 1]);
        }
    }
    let rest = vstd::slice::slice_subrange(cs.as_slice(), i, n);
    match parse_int(rest, 16, 0, u64::MAX as i128) {
        Some(v) => Some(v as u64),
        None => None,
    }
}

/// How many candidates `list [n]` shows: `n`, or 20 where it is missing or
/// not a number.
pub fn list_limit(rest: &str) -> (r: usize)
    ensures
        r == match parse_int_spec(trim(rest@), 10, 0, usize::MAX as int) {
            Some(n) => n as usize,
            None => 20,
        },
{
    let t = trimmed(chars_of(rest).as_slice());
    match parse_int(t.as_slice(), 10, 0, usize::MAX as i128) {
        Some(n) => n as usize,
        None => 20,
    }
}


/// The commands of the interactive scanner.
#[derive(Copy, Clone, Debug, PartialEq, Eq, Structural)]
pub enum CommandKind {
    Help,
    Quit,
    Elevate,
    Processes,
    Attach,
    Type,
    Scan,
    Next,
    List,
    Count,
    SetOne,
    SetAll,
    Write,
    Reset,
    Unknown,
}

/// The command a command word names.
pub open spec fn kind_of(cmd: Seq<char>) -> CommandKind {
    if cmd == "help"@ || cmd == "?"@ {
        CommandKind::Help
    } else if cmd == "quit"@ || cmd == "exit"@ || cmd == "q"@ {
        CommandKind::Quit
    } else if cmd == "sudo"@ || cmd == "elevate"@ {
        CommandKind::Elevate
    } else if cmd == "ps"@ || cmd == "processes"@ {
        CommandKind::Processes
    } else if cmd == "pid"@ || cmd == "attach"@ {
        CommandKind::Attach
    } else if cmd == "type"@ {
        CommandKind::Type
    } else if cmd == "scan"@ {
        CommandKind::Scan
    } else if cmd == "next"@ || cmd == "n"@ {
        CommandKind::Next
    } else if cmd == "list"@ || cmd == "ls"@ {
        CommandKind::List
    } else if cmd == "count"@ {
        CommandKind::Count
    } else if cmd == "set"@ {
        CommandKind::SetOne
    } else if cmd == "setall"@ {
        CommandKind::SetAll
    } else if cmd == "write"@ {
        CommandKind::Write
    } else if cmd == "reset"@ || cmd == "clear"@ {
        CommandKind::Reset
    } else {
        CommandKind::Unknown
    }
}

/// The command a command word names.
pub fn command_kind(cmd: &str) -> (r: CommandKind)
    ensures
        r == kind_of(cmd@),
{
    let c = chars_of(cmd);
    let c = c.as_slice();
    if is_word(c, "help") || is_word(c, "?") {
        CommandKind::Help
    } else if is_word(c, "quit") || is_word(c, "exit") || is_word(c, "q") {
        CommandKind::Quit
    } else if is_word(c, "sudo") || is_word(c, "elevate") {
        CommandKind::Elevate
    } else if is_word(c, "ps") || is_word(c, "processes") {
        CommandKind::Processes
    } else if is_word(c, "pid") || is_word(c, "attach") {
        CommandKind::Attach
    } else if is_word(c, "type") {
        CommandKind::Type
    } else if is_word(c, "scan") {
        CommandKind::Scan
    } else if is_word(c, "next") || is_word(c, "n") {
        CommandKind::Next
    } else if is_word(c, "list") || is_word(c, "ls") {
        CommandKind::List
    } else if is_word(c, "count") {
        CommandKind::Count
    } else if is_word(c, "set") {
        CommandKind::SetOne
    } else if is_word(c, "setall") {
        CommandKind::SetAll
    } else if is_word(c, "write") {
        CommandKind::Write
    } else if is_word(c, "reset") || is_word(c, "clear") {
        CommandKind::Reset
    } else {
        CommandKind::Unknown
    }
}

/// The pid of `pid <n>`: `n` where it is an `i32` numeral.
pub fn parse_pid(rest: &str) -> (r: Option<i32>)
    ensures
        match r {
            Some(p) => parse_int_spec(rest@, 10, i32::MIN as int, i32::MAX as int) == Some(
                p as int,
            ),
            None => parse_int_spec(rest@, 10, i32::MIN as int, i32::MAX as int) is None,
        },
{
    match parse_int(chars_of(rest).as_slice(), 10, i32::MIN as i128, i32::MAX as i128) {
        Some(v) => Some(v as i32),
        None => None,
    }
}

/// The arguments of `set <index> <value>`: the index (a `usize` numeral)
/// and the value text, or the line to print.
pub open spec fn set_args_of(rest: Seq<char>) -> Result<(usize, Seq<char>), Seq<char>> {
    let ws = words(rest);
    if ws.len() < 2 {
        Err("usage: set <index> <value>"@)
    } else {
        match parse_int_spec(ws[0], 10, 0, usize::MAX as int) {
            Some(i) => Ok((i as usize, ws[1])),
            None => Err("index must be a number."@),
        }
    }
}

pub fn parse_set_args(rest: &str) -> (r: Result<(usize, String), String>)
    ensures
        match r {
            Ok((i, v)) => set_args_of(rest@) == Ok::<(usize, Seq<char>), Seq<char>>((i, v@)),
            Err(e) => set_args_of(rest@) == Err::<(usize, Seq<char>), Seq<char>>(e@),
        },
{
    let ws = split_words(chars_of(rest).as_slice());
    if ws.len() < 2 {
        return Err("usage: set <index> <value>".to_string());
    }
    match parse_int(ws[0].as_slice(), 10, 0, usize::MAX as i128) {
        Some(i) => Ok((i as usize, string_of(ws[1].as_slice()))),
        None => Err("index must be a number.".to_string()),
    }
}

/// The arguments of `write <hex-address> <value>`, or the line to print.
pub open spec fn write_args_of(rest: Seq<char>) -> Result<(u64, Seq<char>), Seq<char>> {
    let ws = words(rest);
    if ws.len() < 2 {
        Err("usage: write <hex-address> <value>"@)
    } else {
        match parse_int_spec(strip_hex_prefix(ws[0]), 16, 0, u64::MAX as int) {
            Some(a) => Ok((a as u64, ws[1])),
            None => Err("address must be hexadecimal, e.g. 0x7f1234."@),
        }
    }
}

pub fn parse_write_args(rest: &str) -> (r: Result<(u64, String), String>)
    ensures
        match r {
            Ok((a, v)) => write_args_of(rest@) == Ok::<(u64, Seq<char>), Seq<char>>((a, v@)),
            Err(e) => write_args_of(rest@) == Err::<(u64, Seq<char>), Seq<char>>(e@),
        },
{
    let ws = split_words(chars_of(rest).as_slice());
    if ws.len() < 2 {
        return Err("usage: write <hex-address> <value>".to_string());
    }
    let addr = string_of(ws[0].as_slice());
    match parse_hex_address(addr.as_str()) {
        Some(a) => Ok((a, string_of(ws[1].as_slice()))),
        None => Err("address must be hexadecimal, e.g. 0x7f1234.".to_string()),
    }
}

} // verus!
