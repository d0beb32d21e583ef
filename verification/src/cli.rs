//! Command-line arguments of the `rusk` program.
use vstd::prelude::*;
use crate::text::{chars_of, eq_lit, push_all, starts_with, starts_with_lit, string_of};

verus! {

/// The paths named on the command line.
#[derive(Debug, Clone)]
pub struct Args {
    pub input: Option<String>,
    pub output: Option<String>,
    pub source_map: Option<String>,
}

/// What the command line asks for.
#[derive(Debug, Clone)]
pub enum Command {
    /// Print the usage text and stop.
    Help,
    /// Transpile with these paths.
    Run(Args),
}

pub struct SpecArgs {
    pub input: Option<Seq<char>>,
    pub output: Option<Seq<char>>,
    pub source_map: Option<Seq<char>>,
}

pub enum SpecCommand {
    Help,
    Run(SpecArgs),
}

pub open spec fn opt_view(o: Option<String>) -> Option<Seq<char>> {
    match o {
        Some(s) => Some(s@),
        None => None,
    }
}

pub open spec fn args_view(a: Args) -> SpecArgs {
    SpecArgs { input: opt_view(a.input), output: opt_view(a.output), source_map: opt_view(a.source_map) }
}

pub open spec fn command_view(c: Command) -> SpecCommand {
    match c {
        Command::Help => SpecCommand::Help,
        Command::Run(a) => SpecCommand::Run(args_view(a)),
    }
}

/// Reading the arguments from `i` on with the paths found so far.
pub open spec fn parse_from(args: Seq<Seq<char>>, i: int, st: SpecArgs) -> Result<SpecCommand, Seq<char>>
    decreases args.len() - i,
{
    if i < 0 || i >= args.len() {
        Ok(SpecCommand::Run(st))
    } else {
        let a = args[i];
        if a == "-h"@ || a == "--help"@ {
            Ok(SpecCommand::Help)
        } else if a == "-o"@ || a == "--output"@ {
            if i + 1 < args.len() {
                parse_from(args, i + 2, SpecArgs { output: Some(args[i + 1]), ..st })
            } else {
                Err("--output requires a path"@)
            }
        } else if a == "--source-map"@ {
            if i + 1 < args.len() {
                parse_from(args, i + 2, SpecArgs { source_map: Some(args[i + 1]), ..st })
            } else {
                Err("--source-map requires a path"@)
            }
        } else if starts_with(a, "-"@) {
            Err("unknown option: "@ + a)
        } else if st.input is Some {
            Err("only one input path is supported"@)
        } else {
            parse_from(args, i + 1, SpecArgs { input: Some(a), ..st })
        }
    }
}

/// `parse_args`: an optional leading `transpile`, then `-h`/`--help`, `-o`/`--output PATH`,
/// `--source-map PATH` and at most one input path, in any order.
pub open spec fn spec_parse_args(args: Seq<Seq<char>>) -> Result<SpecCommand, Seq<char>> {
    let rest = if args.len() > 0 && args[0] == "transpile"@ {
        args.skip(1)
    } else {
        args
    };
    parse_from(rest, 0, SpecArgs { input: None, output: None, source_map: None })
}

pub open spec fn strings_view(v: Seq<String>) -> Seq<Seq<char>> {
    v.map_values(|s: String| s@)
}

fn copy_string(s: &String) -> (r: String)
    ensures
        r@ == s@,
{
    let c = chars_of(s.as_str());
    string_of(&c)
}

pub fn parse_args(raw_args: Vec<String>) -> (r: Result<Command, String>)
    ensures
        match (r, spec_parse_args(strings_view(raw_args@))) {
            (Ok(c), Ok(d)) => command_view(c) == d,
            (Err(m), Err(n)) => m@ == n,
            _ => false,
        },
{
    let ghost all = strings_view(raw_args@);
    let skip: usize = if raw_args.len() > 0 && eq_lit(&chars_of(raw_args[0].as_str()), "transpile") {
        1
    } else {
        0
    };
    let ghost rest = if all.len() > 0 && all[0] == "transpile"@ {
        all.skip(1)
    } else {
        all
    };
    assert(rest =~= all.skip(skip as int));
    let mut args = Args { input: None, output: None, source_map: None };
    let mut index = skip;
    while index < raw_args.len()
        invariant
            skip <= index <= raw_args.len(),
            all == strings_view(raw_args@),
            rest =~= all.skip(skip as int),
            spec_parse_args(all) == parse_from(rest, index - skip, args_view(args)),
        decreases raw_args.len() - index,
    {
        let a = chars_of(raw_args[index].as_str());
        assert(rest[index - skip] == a@);
        if eq_lit(&a, "-h") || eq_lit(&a, "--help") {
            return Ok(Command::Help);
        } else if eq_lit(&a, "-o") || eq_lit(&a, "--output") {
            if index + 1 < raw_args.len() {
                assert(rest[index + 1 - skip] == raw_args@[index + 1]@);
                args.output = Some(copy_string(&raw_args[index + 1]));
                index += 2;
            } else {
                return Err("--output requires a path".to_owned());
            }
        } else if eq_lit(&a, "--source-map") {
            if index + 1 < raw_args.len() {
                assert(rest[index + 1 - skip] == raw_args@[index + 1]@);
                args.source_map = Some(copy_string(&raw_args[index + 1]));
                index += 2;
            } else {
                return Err("--source-map requires a path".to_owned());
            }
        } else if starts_with_lit(&a, "-") {
            let mut m = chars_of("unknown option: ");
            push_all(&mut m, &a);
            return Err(string_of(&m));
        } else if args.input.is_some() {
            return Err("only one input path is supported".to_owned());
        } else {
            args.input = Some(string_of(&a));
            index += 1;
        }
    }
    Ok(Command::Run(args))
}

} // verus!
