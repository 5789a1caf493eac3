//! The launcher contract: command-line parsing and the ready line.
//!
//! ```text
//! medusa-threed-rs [--bind ADDR] [--port N]
//! ```
//!
//! Whether a `--bind` value is an IP address is decided by the standard
//! library's address parser, which the caller runs on each argument and hands
//! in as `bind_parses`.

use vstd::prelude::*;
use vstd::string::*;
use crate::decimal::{
    decimal, int_error_text, is_digit, lemma_decimal_digits, lemma_parse_u16_decimal, parse_u16, push_decimal, spec_parse_u16,
    IntErrorKind,
};

verus! {

/// Prefix of the single stdout line announcing the listening port.
pub const READY_LINE_PREFIX: &'static str = "READY port=";

/// Port listened on when `--port` is not given.
pub const DEFAULT_PORT: u16 = 50052;

/// Interface bound when `--bind` is not given.
pub const DEFAULT_BIND: &'static str = "127.0.0.1";

/// Text of the standard library's address parse error.
pub const ADDR_PARSE_ERROR_TEXT: &'static str = "invalid IP address syntax";

/// Where to listen.
pub struct LauncherArgs {
    /// The interface address, as given (the standard parser accepts it).
    pub bind: String,
    pub port: u16,
}

/// What the command line asks for.
pub enum LaunchCommand {
    /// Print the help text and exit.
    Help,
    /// Print the version and exit.
    Version,
    /// Serve on the given address.
    Serve(LauncherArgs),
}

/// What the command line asks for, with the address as text.
pub enum CommandView {
    Help,
    Version,
    Serve(Seq<char>, u16),
}

pub open spec fn command_view(c: LaunchCommand) -> CommandView {
    match c {
        LaunchCommand::Help => CommandView::Help,
        LaunchCommand::Version => CommandView::Version,
        LaunchCommand::Serve(a) => CommandView::Serve(a.bind@, a.port),
    }
}

pub open spec fn bind_error(v: Seq<char>) -> Seq<char> {
    "invalid --bind '"@ + v + "': "@ + ADDR_PARSE_ERROR_TEXT@
}

pub open spec fn port_error(v: Seq<char>, k: IntErrorKind) -> Seq<char> {
    "invalid --port '"@ + v + "': "@ + int_error_text(k)
}

pub open spec fn unknown_error(a: Seq<char>) -> Seq<char> {
    "unknown argument '"@ + a + "'"@
}

/// Reads `args[i..]` with the address and port chosen so far. The first
/// help or version flag ends the reading; an error ends it at once; a later
/// `--bind` or `--port` replaces an earlier one.
pub open spec fn parse_from(
    args: Seq<Seq<char>>,
    ok: Seq<bool>,
    i: int,
    bind: Seq<char>,
    port: u16,
) -> Result<CommandView, Seq<char>>
    decreases args.len() - i,
{
    if i < 0 || i >= args.len() {
        Ok(CommandView::Serve(bind, port))
    } else {
        let a = args[i];
        if a == "--help"@ || a == "-h"@ {
            Ok(CommandView::Help)
        } else if a == "--version"@ || a == "-V"@ {
            Ok(CommandView::Version)
        } else if a == "--bind"@ {
            if i + 1 >= args.len() {
                Err("--bind needs an address"@)
            } else if !ok[i + 1] {
                Err(bind_error(args[i + 1]))
            } else {
                parse_from(args, ok, i + 2, args[i + 1], port)
            }
        } else if a == "--port"@ {
            if i + 1 >= args.len() {
                Err("--port needs a number"@)
            } else {
                match spec_parse_u16(args[i + 1]) {
                    Ok(p) => parse_from(args, ok, i + 2, bind, p),
                    Err(k) => Err(port_error(args[i + 1], k)),
                }
            }
        } else {
            Err(unknown_error(a))
        }
    }
}

/// The meaning of a whole command line.
pub open spec fn spec_parse_command(args: Seq<Seq<char>>, ok: Seq<bool>) -> Result<
    CommandView,
    Seq<char>,
> {
    parse_from(args, ok, 0, DEFAULT_BIND@, DEFAULT_PORT)
}

pub open spec fn arg_texts(argv: Seq<String>) -> Seq<Seq<char>> {
    argv.map_values(|s: String| s@)
}

/// The characters of a string slice, in order.
pub fn chars_of(s: &str) -> (r: Vec<char>)
    ensures
        r@ == s@,
{
    let n = s.unicode_len();
    let mut out: Vec<char> = Vec::new();
    let mut i: usize = 0;
    while i < n
        invariant
            n == s@.len(),
            i <= n,
            out@ == s@.subrange(0, i as int),
        decreases n - i,
    {
        out.push(s.get_char(i));
        i = i + 1;
        assert(out@ =~= s@.subrange(0, i as int));
    }
    assert(out@ =~= s@);
    out
}

/// Character-wise equality of two string slices.
pub fn str_eq(a: &str, b: &str) -> (r: bool)
    ensures
        r == (a@ == b@),
{
    let n = a.unicode_len();
    if n != b.unicode_len() {
        return false;
    }
    let mut i: usize = 0;
    while i < n
        invariant
            n == a@.len(),
            n == b@.len(),
            i <= n,
            forall|j: int| 0 <= j < i ==> a@[j] == b@[j],
        decreases n - i,
    {
        if a.get_char(i) != b.get_char(i) {
            return false;
        }
        i = i + 1;
    }
    assert(a@ =~= b@);
    true
}

fn concat3(a: &str, b: &str, c: &str) -> (r: String)
    ensures
        r@ == a@ + b@ + c@,
{
    let mut s = String::from_str(a);
    s.append(b);
    s.append(c);
    s
}

fn concat4(a: &str, b: &str, c: &str, d: &str) -> (r: String)
    ensures
        r@ == a@ + b@ + c@ + d@,
{
    let mut s = concat3(a, b, c);
    s.append(d);
    s
}

/// Parses the launcher's command line. `bind_parses[i]` tells whether
/// `argv[i]` is an IP address.
pub fn parse_command(argv: &Vec<String>, bind_parses: &Vec<bool>) -> (r: Result<
    LaunchCommand,
    String,
>)
    requires
        bind_parses@.len() == argv@.len(),
    ensures
        match r {
            Ok(c) => spec_parse_command(arg_texts(argv@), bind_parses@) == Ok::<
                CommandView,
                Seq<char>,
            >(command_view(c)),
            Err(e) => spec_parse_command(arg_texts(argv@), bind_parses@) == Err::<
                CommandView,
                Seq<char>,
            >(e@),
        },
{
    let ghost args = arg_texts(argv@);
    let ghost ok = bind_parses@;
    proof {
        reveal_strlit("127.0.0.1");
        reveal_strlit("--help");
        reveal_strlit("-h");
        reveal_strlit("--version");
        reveal_strlit("-V");
        reveal_strlit("--bind");
        reveal_strlit("--port");
    }
    let mut bind = String::from_str(DEFAULT_BIND);
    let mut port: u16 = DEFAULT_PORT;
    let n = argv.len();
    let mut i: usize = 0;
    while i < n
        invariant
            n == argv@.len(),
            n == ok.len(),
            ok == bind_parses@,
            args == arg_texts(argv@),
            i <= n + 1,
            parse_from(args, ok, i as int, bind@, port) == spec_parse_command(args, ok),
        decreases n + 1 - i,
    {
        let a = argv[i].as_str();
        assert(a@ == args[i as int]);
        if str_eq(a, "--help") || str_eq(a, "-h") {
            return Ok(LaunchCommand::Help);
        } else if str_eq(a, "--version") || str_eq(a, "-V") {
            return Ok(LaunchCommand::Version);
        } else if str_eq(a, "--bind") {
            if i + 1 >= n {
                return Err(String::from_str("--bind needs an address"));
            }
            let v = argv[i + 1].as_str();
            assert(v@ == args[i + 1]);
            if !bind_parses[i + 1] {
                return Err(concat4("invalid --bind '", v, "': ", ADDR_PARSE_ERROR_TEXT));
            }
            bind = String::from_str(v);
            i = i + 2;
        } else if str_eq(a, "--port") {
            if i + 1 >= n {
                return Err(String::from_str("--port needs a number"));
            }
            let v = argv[i + 1].as_str();
            assert(v@ == args[i + 1]);
            match parse_u16(&chars_of(v)) {
                Ok(p) => {
                    port = p;
                    i = i + 2;
                },
                Err(k) => {
                    return Err(concat4("invalid --port '", v, "': ", int_error_str(k)));
                },
            }
        } else {
            return Err(concat3("unknown argument '", a, "'"));
        }
    }
    Ok(LaunchCommand::Serve(LauncherArgs { bind, port }))
}

/// The standard library's message for an integer parse error.
pub fn int_error_str(k: IntErrorKind) -> (r: &'static str)
    ensures
        r@ == int_error_text(k),
{
    match k {
        IntErrorKind::Empty => "cannot parse integer from empty string",
        IntErrorKind::InvalidDigit => "invalid digit found in string",
        IntErrorKind::PosOverflow => "number too large to fit in target type",
        IntErrorKind::NegOverflow => "number too small to fit in target type",
    }
}

/// Parses the launcher's command line: `None` when it asks for help or the
/// version, the address and port to serve on otherwise.
pub fn parse_args(argv: &Vec<String>, bind_parses: &Vec<bool>) -> (r: Result<
    Option<LauncherArgs>,
    String,
>)
    requires
        bind_parses@.len() == argv@.len(),
    ensures
        match r {
            Ok(None) => spec_parse_command(arg_texts(argv@), bind_parses@) matches Ok(c) && !(
            c is Serve),
            Ok(Some(a)) => spec_parse_command(arg_texts(argv@), bind_parses@) == Ok::<
                CommandView,
                Seq<char>,
            >(CommandView::Serve(a.bind@, a.port)),
            Err(e) => spec_parse_command(arg_texts(argv@), bind_parses@) == Err::<
                CommandView,
                Seq<char>,
            >(e@),
        },
{
    match parse_command(argv, bind_parses) {
        Ok(LaunchCommand::Serve(a)) => Ok(Some(a)),
        Ok(_) => Ok(None),
        Err(e) => Err(e),
    }
}

/// Port law: `--port S` serves on the default address at the port that the
/// standard `u16` parser reads from `S`, whatever that port is, 0 included
/// (0 asks the system for a free port).
pub proof fn lemma_port_flag(s: Seq<char>, ok: Seq<bool>)
    requires
        spec_parse_u16(s) is Ok,
    ensures
        spec_parse_command(seq!["--port"@, s], ok) == Ok::<CommandView, Seq<char>>(
            CommandView::Serve(DEFAULT_BIND@, spec_parse_u16(s)->Ok_0),
        ),
{
    reveal_strlit("--help");
    reveal_strlit("-h");
    reveal_strlit("--version");
    reveal_strlit("-V");
    reveal_strlit("--bind");
    reveal_strlit("--port");
    let args = seq!["--port"@, s];
    assert(args[0][2] != "--help"@[2]);
    assert(args[0].len() != "-h"@.len());
    assert(args[0].len() != "--version"@.len());
    assert(args[0].len() != "-V"@.len());
    assert(args[0][2] != "--bind"@[2]);
    assert(parse_from(args, ok, 2, DEFAULT_BIND@, spec_parse_u16(s)->Ok_0) == Ok::<
        CommandView,
        Seq<char>,
    >(CommandView::Serve(DEFAULT_BIND@, spec_parse_u16(s)->Ok_0)));
}

/// Port round trip: for every port `p`, 0 included, `--port` followed by the
/// decimal digits of `p` serves on port `p` at the default address.
pub proof fn lemma_port_flag_decimal(p: u16, ok: Seq<bool>)
    ensures
        spec_parse_command(seq!["--port"@, decimal(p as nat)], ok) == Ok::<CommandView, Seq<char>>(
            CommandView::Serve(DEFAULT_BIND@, p),
        ),
{
    lemma_parse_u16_decimal(p);
    lemma_port_flag(decimal(p as nat), ok);
}

/// Address and port law: `--bind A --port S`, with `A` accepted as an
/// address, serves on `A` at the port read from `S`, whatever it is.
pub proof fn lemma_bind_and_port_flags(a: Seq<char>, s: Seq<char>, ok: Seq<bool>)
    requires
        ok.len() == 4,
        ok[1],
        spec_parse_u16(s) is Ok,
    ensures
        spec_parse_command(seq!["--bind"@, a, "--port"@, s], ok) == Ok::<CommandView, Seq<char>>(
            CommandView::Serve(a, spec_parse_u16(s)->Ok_0),
        ),
{
    reveal_strlit("--help");
    reveal_strlit("-h");
    reveal_strlit("--version");
    reveal_strlit("-V");
    reveal_strlit("--bind");
    reveal_strlit("--port");
    let args = seq!["--bind"@, a, "--port"@, s];
    let p = spec_parse_u16(s)->Ok_0;
    assert(args[0][2] != "--help"@[2]);
    assert(args[0].len() != "-h"@.len());
    assert(args[0].len() != "--version"@.len());
    assert(args[0].len() != "-V"@.len());
    assert(args[2][2] != "--help"@[2]);
    assert(args[2].len() != "-h"@.len());
    assert(args[2].len() != "--version"@.len());
    assert(args[2].len() != "-V"@.len());
    assert(args[2][2] != "--bind"@[2]);
    assert(parse_from(args, ok, 4, a, p) == Ok::<CommandView, Seq<char>>(
        CommandView::Serve(a, p),
    ));
    assert(parse_from(args, ok, 2, a, DEFAULT_PORT) == parse_from(args, ok, 4, a, p));
}

/// The ready line for a listening port, without the line break.
pub open spec fn spec_ready_line(port: u16) -> Seq<char> {
    READY_LINE_PREFIX@ + decimal(port as nat)
}

/// The ready line announcing the port actually bound.
pub fn ready_line(port: u16) -> (r: String)
    ensures
        r@ == spec_ready_line(port),
{
    let mut s = String::from_str(READY_LINE_PREFIX);
    push_decimal(&mut s, port as u32);
    s
}

/// The launcher reads the port back from the ready line: what follows the
/// prefix is one or more decimal digits, which parse to the port.
pub proof fn lemma_ready_line_round_trip(port: u16)
    ensures
        spec_ready_line(port).subrange(0, READY_LINE_PREFIX@.len() as int) == READY_LINE_PREFIX@,
        spec_ready_line(port).len() > READY_LINE_PREFIX@.len(),
        forall|i: int|
            READY_LINE_PREFIX@.len() <= i < spec_ready_line(port).len() ==> is_digit(
                #[trigger] spec_ready_line(port)[i],
            ),
        spec_parse_u16(
            spec_ready_line(port).subrange(
                READY_LINE_PREFIX@.len() as int,
                spec_ready_line(port).len() as int,
            ),
        ) == Ok::<u16, IntErrorKind>(port),
{
    let l = READY_LINE_PREFIX@;
    let d = decimal(port as nat);
    assert((l + d).subrange(0, l.len() as int) =~= l);
    assert((l + d).subrange(l.len() as int, (l + d).len() as int) =~= d);
    lemma_parse_u16_decimal(port);
    lemma_decimal_digits(port as nat);
    assert forall|i: int| l.len() <= i < (l + d).len() implies is_digit(#[trigger] (l + d)[i]) by {
        assert((l + d)[i] == d[i - l.len()]);
    }
}

} // verus!
