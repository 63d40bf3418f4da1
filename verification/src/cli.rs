//! The command line.

use vstd::prelude::*;

use crate::text;

verus! {

/// What the program was asked to do.
#[derive(Debug)]
pub enum Launch {
    Help,
    Version,
    SetDefault,
    /// Run, with these arguments; the files among them are opened.
    Run(Vec<String>),
}

pub open spec fn asks_help(arg: Seq<char>) -> bool {
    arg == "-h"@ || arg == "--help"@ || arg == "help"@
}

pub open spec fn asks_version(arg: Seq<char>) -> bool {
    arg == "-V"@ || arg == "--version"@
}

/// Reads the arguments, of which the first is the program's name. A leading
/// `open` means nothing and is dropped.
pub fn launch(args: Vec<String>) -> (r: Launch)
    ensures
        ({
            let all = text::texts(args@);
            let run = r matches Launch::Run(rest) && text::texts(rest@) == all;
            let run_rest = r matches Launch::Run(rest) && text::texts(rest@) == all.remove(1);
            if all.len() < 2 {
                run
            } else if asks_help(all[1]) {
                r is Help
            } else if asks_version(all[1]) {
                r is Version
            } else if all[1] == "set-default"@ {
                r is SetDefault
            } else if all[1] == "open"@ {
                run_rest
            } else {
                run
            }
        }),
{
    if args.len() < 2 {
        return Launch::Run(args);
    }
    let arg = text::chars_of(args[1].as_str());
    assert(text::texts(args@)[1] == args@[1]@);
    if text::is(&arg, "-h") || text::is(&arg, "--help") || text::is(&arg, "help") {
        return Launch::Help;
    }
    if text::is(&arg, "-V") || text::is(&arg, "--version") {
        return Launch::Version;
    }
    if text::is(&arg, "set-default") {
        return Launch::SetDefault;
    }
    if text::is(&arg, "open") {
        let ghost all = text::texts(args@);
        let mut rest = args;
        rest.remove(1);
        assert(text::texts(rest@) =~= all.remove(1));
        return Launch::Run(rest);
    }
    Launch::Run(args)
}

/// What is said once the associations have been set, `failed` of `total` of
/// which could not be, and whether that is a success.
pub fn associations_report(failed: usize, total: usize) -> (r: (bool, String))
    ensures
        r.0 == (failed == 0),
        failed > 0 ==> r.1@ == "owl-player: could not set "@ + text::decimal(failed as nat)
            + " of "@ + text::decimal(total as nat) + " associations"@,
        failed == 0 ==> r.1@ == "Owl Player is now the default for "@ + text::decimal(
            total as nat,
        ) + " media types."@,
{
    let mut out: Vec<char> = Vec::new();
    if failed > 0 {
        text::append_str(&mut out, "owl-player: could not set ");
        text::append_decimal(&mut out, failed as u64);
        text::append_str(&mut out, " of ");
        text::append_decimal(&mut out, total as u64);
        text::append_str(&mut out, " associations");
        assert(out@ =~= "owl-player: could not set "@ + text::decimal(failed as nat) + " of "@
            + text::decimal(total as nat) + " associations"@);
        (false, text::string_of(&out))
    } else {
        text::append_str(&mut out, "Owl Player is now the default for ");
        text::append_decimal(&mut out, total as u64);
        text::append_str(&mut out, " media types.");
        assert(out@ =~= "Owl Player is now the default for "@ + text::decimal(total as nat)
            + " media types."@);
        (true, text::string_of(&out))
    }
}

} // verus!
