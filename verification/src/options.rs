//! Command-line options: the last argument names the base directory unless
//! it is `--help`; the remaining arguments are flags (`--help`,
//! `--port=<u16>`). Whether the base directory exists on disk is the
//! caller's check, beside the other filesystem work.

use vstd::prelude::*;
use vstd::string::StrSliceExecFns;
use vstd::string::StringExecFns;

use crate::scan::string_views;

verus! {

/// One parsed program option.
pub enum ProgramOption {
    /// The directory to index.
    BaseDir(String),
    /// The port to serve on.
    Port(u16),
    /// Print usage and exit.
    PrintHelp,
}

/// The mathematical value of a program option.
pub ghost enum ProgramOptionView {
    BaseDir(Seq<char>),
    Port(u16),
    PrintHelp,
}

impl View for ProgramOption {
    type V = ProgramOptionView;

    open spec fn view(&self) -> ProgramOptionView {
        match self {
            ProgramOption::BaseDir(p) => ProgramOptionView::BaseDir(p@),
            ProgramOption::Port(p) => ProgramOptionView::Port(*p),
            ProgramOption::PrintHelp => ProgramOptionView::PrintHelp,
        }
    }
}

/// An argument list that cannot be parsed.
#[derive(Debug)]
pub enum Error {
    /// An argument that is no known flag.
    InvalidOption(String),
    /// No arguments, or a base directory that is no directory.
    InvalidOptionsStructure,
}

/// The mathematical value of a parse error.
pub ghost enum ErrorView {
    InvalidOption(Seq<char>),
    InvalidOptionsStructure,
}

impl View for Error {
    type V = ErrorView;

    open spec fn view(&self) -> ErrorView {
        match self {
            Error::InvalidOption(s) => ErrorView::InvalidOption(s@),
            Error::InvalidOptionsStructure => ErrorView::InvalidOptionsStructure,
        }
    }
}

/// The values of a vector of options.
pub open spec fn option_views(s: Seq<ProgramOption>) -> Seq<ProgramOptionView> {
    s.map_values(|o: ProgramOption| o@)
}

/// A decimal digit.
pub open spec fn spec_is_digit(c: char) -> bool {
    48 <= c as u32 <= 57
}

/// The value of a decimal digit.
pub open spec fn spec_digit_val(c: char) -> nat {
    (c as u32 - 48) as nat
}

/// Every character is a decimal digit.
pub open spec fn all_digits(s: Seq<char>) -> bool {
    forall|i: int| 0 <= i < s.len() ==> spec_is_digit(#[trigger] s[i])
}

/// The number a digit string denotes.
pub open spec fn spec_digits_val(s: Seq<char>) -> nat
    decreases s.len(),
{
    if s.len() == 0 {
        0
    } else {
        spec_digits_val(s.drop_last()) * 10 + spec_digit_val(s.last())
    }
}

/// The port number a string denotes: an optional `+`, then one or more
/// decimal digits whose value fits in sixteen bits; anything else is no
/// port number.
pub open spec fn spec_parse_u16(s: Seq<char>) -> Option<u16> {
    let d = if s.len() > 0 && s[0] == '+' {
        s.skip(1)
    } else {
        s
    };
    if d.len() > 0 && all_digits(d) && spec_digits_val(d) <= 65535 {
        Some(spec_digits_val(d) as u16)
    } else {
        None
    }
}

/// Parses a base-ten u16, accepting an optional leading `+` and rejecting
/// anything else or any value over 65535.
pub fn parse_u16(s: &str) -> (r: Option<u16>)
    ensures
        r == spec_parse_u16(s@),
{
    let n = s.unicode_len();
    let ghost d = if s@.len() > 0 && s@[0] == '+' {
        s@.skip(1)
    } else {
        s@
    };
    let start: usize = if n > 0 && s.get_char(0) == '+' {
        1
    } else {
        0
    };
    proof {
        assert(d =~= s@.skip(start as int));
    }
    if n == start {
        return None;
    }
    let mut value: u32 = 0;
    let mut overflow: bool = false;
    let mut i: usize = start;
    while i < n
        invariant
            start <= i <= n,
            n == s@.len(),
            start <= 1,
            (start == 1) == (s@.len() > 0 && s@[0] == '+'),
            d == s@.skip(start as int),
            d == (if s@.len() > 0 && s@[0] == '+' {
                s@.skip(1)
            } else {
                s@
            }),
            all_digits(d.take(i - start)),
            !overflow ==> value == spec_digits_val(d.take(i - start)) && value <= 65535,
            overflow ==> spec_digits_val(d.take(i - start)) > 65535,
        decreases n - i,
    {
        let c = s.get_char(i);
        let u = c as u32;
        proof {
            assert(d[i - start] == s@[i as int]);
        }
        if u < 48 || u > 57 {
            proof {
                assert(!spec_is_digit(d[i - start]));
                assert(!all_digits(d));
            }
            return None;
        }
        let ghost pre = d.take(i - start);
        let ghost now = d.take(i - start + 1);
        proof {
            assert(now.drop_last() =~= pre);
            assert(now.last() == d[i - start]);
            assert(spec_digits_val(now) == spec_digits_val(pre) * 10 + spec_digit_val(d[i
                - start]));
        }
        if !overflow {
            value = value * 10 + (u - 48);
            if value > 65535 {
                overflow = true;
            }
        } else {
            proof {
                assert(spec_digits_val(now) >= spec_digits_val(pre));
            }
        }
        i = i + 1;
    }
    proof {
        assert(d.take(n - start) =~= d);
    }
    if overflow {
        None
    } else {
        Some(value as u16)
    }
}

/// Whether a string is exactly `--help`.
fn is_help_flag(s: &String) -> (r: bool)
    ensures
        r == (s@ == "--help"@),
{
    proof {
        reveal_strlit("--help");
    }
    let t: &str = s.as_str();
    if t.unicode_len() != 6 {
        return false;
    }
    let r = t.get_char(0) == '-' && t.get_char(1) == '-' && t.get_char(2) == 'h' && t.get_char(3)
        == 'e' && t.get_char(4) == 'l' && t.get_char(5) == 'p';
    proof {
        if r {
            assert(s@ =~= "--help"@);
        }
    }
    r
}

/// Whether a string starts with `--port=`.
fn has_port_prefix(s: &String) -> (r: bool)
    ensures
        r == (s@.len() >= 7 && s@.take(7) == "--port="@),
{
    proof {
        reveal_strlit("--port=");
    }
    let t: &str = s.as_str();
    if t.unicode_len() < 7 {
        return false;
    }
    let r = t.get_char(0) == '-' && t.get_char(1) == '-' && t.get_char(2) == 'p' && t.get_char(3)
        == 'o' && t.get_char(4) == 'r' && t.get_char(5) == 't' && t.get_char(6) == '=';
    proof {
        if r {
            assert(s@.take(7) =~= "--port="@);
        } else {
            assert(s@.take(7) != "--port="@) by {
                if s@.take(7) == "--port="@ {
                    assert(s@.take(7)[0] == '-' && s@.take(7)[1] == '-' && s@.take(7)[2] == 'p'
                        && s@.take(7)[3] == 'o' && s@.take(7)[4] == 'r' && s@.take(7)[5] == 't'
                        && s@.take(7)[6] == '=');
                }
            }
        }
    }
    r
}

/// What one flag argument means.
pub open spec fn spec_arg_flag(arg: Seq<char>) -> Result<ProgramOptionView, ErrorView> {
    if arg == "--help"@ {
        Ok(ProgramOptionView::PrintHelp)
    } else if arg.len() >= 7 && arg.take(7) == "--port="@ {
        match spec_parse_u16(arg.skip(7)) {
            Some(p) => Ok(ProgramOptionView::Port(p)),
            None => Err(ErrorView::InvalidOption(arg)),
        }
    } else {
        Err(ErrorView::InvalidOption(arg))
    }
}

/// Parsing a run of flag arguments onto already-parsed options: the first
/// invalid argument is the error.
pub open spec fn spec_parse_flags(args: Seq<Seq<char>>, acc: Seq<ProgramOptionView>) -> Result<
    Seq<ProgramOptionView>,
    ErrorView,
>
    decreases args.len(),
{
    if args.len() == 0 {
        Ok(acc)
    } else {
        match spec_arg_flag(args.first()) {
            Ok(o) => spec_parse_flags(args.drop_first(), acc.push(o)),
            Err(e) => Err(e),
        }
    }
}

/// What an argument list means: nothing is an error; a final `--help` makes
/// every argument a flag; any other final argument is the base directory,
/// and the arguments before it are flags.
pub open spec fn spec_process_args(args: Seq<Seq<char>>) -> Result<
    Seq<ProgramOptionView>,
    ErrorView,
> {
    if args.len() == 0 {
        Err(ErrorView::InvalidOptionsStructure)
    } else if args.last() == "--help"@ {
        spec_parse_flags(args, Seq::empty())
    } else {
        spec_parse_flags(args.drop_last(), seq![ProgramOptionView::BaseDir(args.last())])
    }
}

/// Parses the program arguments (the program name already removed): the
/// base directory from the last argument unless it is `--help`, and the
/// `--help` and `--port=<u16>` flags from the rest, failing on the first
/// unknown argument.
pub fn process_args(args: &Vec<String>) -> (r: Result<Vec<ProgramOption>, Error>)
    ensures
        match r {
            Ok(opts) => spec_process_args(string_views(args@)) == Ok::<_, ErrorView>(
                option_views(opts@),
            ),
            Err(e) => spec_process_args(string_views(args@)) == Err::<Seq<ProgramOptionView>, _>(
                e@,
            ),
        },
{
    let ghost sv = string_views(args@);
    let n = args.len();
    if n == 0 {
        return Err(Error::InvalidOptionsStructure);
    }
    let mut options: Vec<ProgramOption> = Vec::new();
    let flag_count: usize;
    if !is_help_flag(&args[n - 1]) {
        options.push(ProgramOption::BaseDir(args[n - 1].clone()));
        flag_count = n - 1;
        proof {
            assert(sv.take(flag_count as int) =~= sv.drop_last());
            assert(option_views(options@) =~= seq![ProgramOptionView::BaseDir(sv.last())]);
        }
    } else {
        flag_count = n;
        proof {
            assert(sv.take(flag_count as int) =~= sv);
            assert(option_views(options@) =~= Seq::<ProgramOptionView>::empty());
        }
    }
    let ghost goal = spec_process_args(sv);
    proof {
        assert(goal == spec_parse_flags(sv.take(flag_count as int), option_views(options@)));
        assert(sv.take(flag_count as int).skip(0) =~= sv.take(flag_count as int));
    }
    let mut i: usize = 0;
    while i < flag_count
        invariant
            i <= flag_count,
            flag_count <= n,
            n == args@.len(),
            sv == string_views(args@),
            goal == spec_process_args(sv),
            goal == spec_parse_flags(
                sv.take(flag_count as int).skip(i as int),
                option_views(options@),
            ),
        decreases flag_count - i,
    {
        let ghost rest = sv.take(flag_count as int).skip(i as int);
        proof {
            assert(rest.first() == sv[i as int]);
            assert(rest.drop_first() =~= sv.take(flag_count as int).skip(i + 1));
        }
        let arg = &args[i];
        let ghost pre_opts = option_views(options@);
        if is_help_flag(arg) {
            options.push(ProgramOption::PrintHelp);
            proof {
                assert(spec_arg_flag(sv[i as int]) == Ok::<_, ErrorView>(
                    ProgramOptionView::PrintHelp,
                ));
                assert(option_views(options@) =~= pre_opts.push(ProgramOptionView::PrintHelp));
            }
        } else if has_port_prefix(arg) {
            let t: &str = arg.as_str();
            let value = t.substring_char(7, t.unicode_len());
            proof {
                assert(value@ =~= sv[i as int].skip(7));
            }
            match parse_u16(value) {
                Some(p) => {
                    options.push(ProgramOption::Port(p));
                    proof {
                        assert(spec_arg_flag(sv[i as int]) == Ok::<_, ErrorView>(
                            ProgramOptionView::Port(p),
                        ));
                        assert(option_views(options@) =~= pre_opts.push(
                            ProgramOptionView::Port(p),
                        ));
                    }
                },
                None => {
                    proof {
                        assert(spec_arg_flag(sv[i as int]) == Err::<ProgramOptionView, _>(
                            ErrorView::InvalidOption(sv[i as int]),
                        ));
                    }
                    return Err(Error::InvalidOption(arg.clone()));
                },
            }
        } else {
            proof {
                assert(spec_arg_flag(sv[i as int]) == Err::<ProgramOptionView, _>(
                    ErrorView::InvalidOption(sv[i as int]),
                ));
            }
            return Err(Error::InvalidOption(arg.clone()));
        }
        i = i + 1;
    }
    proof {
        assert(sv.take(flag_count as int).skip(flag_count as int) =~= Seq::<Seq<char>>::empty());
    }
    Ok(options)
}

} // verus!
