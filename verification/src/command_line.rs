//! The command line of the reporting tool: a command, then flags with
//! values.
use vstd::prelude::*;

use crate::order::compare_str;
use crate::report::{views, OutputFormat};
use crate::text::{owned, push_str};
use crate::{QueryModel, QueryOptions};

verus! {

/// Which report to print.
#[derive(Debug, Clone, Copy, PartialEq, Eq)]
pub enum CommandName {
    Status,
    Churn,
    Hotspots,
    Contributors,
    Timeline,
}

/// The usage line.
pub open spec fn usage_text() -> Seq<char> {
    "Usage: delta <status|churn|hotspots|contributors|timeline> [--repo <path>] [--author <author>] [--since <date>] [--until <date>] [--branch <branch>] [--file-type <ext>] [--output <text|json|csv>]"@
}

/// The usage line.
pub fn usage() -> (u: &'static str)
    ensures
        u@ == usage_text(),
{
    "Usage: delta <status|churn|hotspots|contributors|timeline> [--repo <path>] [--author <author>] [--since <date>] [--until <date>] [--branch <branch>] [--file-type <ext>] [--output <text|json|csv>]"
}

/// The command a word names.
pub open spec fn command_of(a: Seq<char>) -> Option<CommandName> {
    if a == "status"@ {
        Some(CommandName::Status)
    } else if a == "churn"@ {
        Some(CommandName::Churn)
    } else if a == "hotspots"@ {
        Some(CommandName::Hotspots)
    } else if a == "contributors"@ {
        Some(CommandName::Contributors)
    } else if a == "timeline"@ {
        Some(CommandName::Timeline)
    } else {
        None
    }
}

/// The options before any flag: the current directory, no filter.
pub open spec fn default_query() -> QueryModel {
    QueryModel { repo: seq!['.'], author: None, since: None, until: None, branch: None, file_type: None }
}

/// The options and output format after reading the flags from position
/// `idx` on, each flag followed by its value; the first error, if any.
pub open spec fn parse_flags(args: Seq<Seq<char>>, idx: int, q: QueryModel, out: OutputFormat) -> Result<(QueryModel, OutputFormat), Seq<char>>
    decreases args.len() - idx,
{
    if idx >= args.len() {
        Ok((q, out))
    } else if idx + 1 >= args.len() {
        Err("Flag '"@ + args[idx] + "' requires a value."@)
    } else {
        let flag = args[idx];
        let value = args[idx + 1];
        if flag == "--repo"@ {
            parse_flags(args, idx + 2, QueryModel { repo: value, ..q }, out)
        } else if flag == "--author"@ {
            parse_flags(args, idx + 2, QueryModel { author: Some(value), ..q }, out)
        } else if flag == "--since"@ {
            parse_flags(args, idx + 2, QueryModel { since: Some(value), ..q }, out)
        } else if flag == "--until"@ {
            parse_flags(args, idx + 2, QueryModel { until: Some(value), ..q }, out)
        } else if flag == "--branch"@ {
            parse_flags(args, idx + 2, QueryModel { branch: Some(value), ..q }, out)
        } else if flag == "--file-type"@ {
            parse_flags(args, idx + 2, QueryModel { file_type: Some(value), ..q }, out)
        } else if flag == "--output"@ {
            if value == "text"@ {
                parse_flags(args, idx + 2, q, OutputFormat::Text)
            } else if value == "json"@ {
                parse_flags(args, idx + 2, q, OutputFormat::Json)
            } else if value == "csv"@ {
                parse_flags(args, idx + 2, q, OutputFormat::Csv)
            } else {
                Err("Unsupported output format '"@ + value + "'."@)
            }
        } else {
            Err("Unknown flag '"@ + flag + "'."@)
        }
    }
}

/// What the command line `args` (program name first) asks for, or why it
/// cannot be read (an empty message for `--help` and `-h`).
pub open spec fn parsed_args(args: Seq<Seq<char>>) -> Result<(CommandName, QueryModel, OutputFormat), Seq<char>> {
    if args.len() < 2 {
        Err("Missing command."@)
    } else {
        match command_of(args[1]) {
            Some(c) => match parse_flags(args, 2, default_query(), OutputFormat::Text) {
                Ok(p) => Ok((c, p.0, p.1)),
                Err(e) => Err(e),
            },
            None => if args[1] == "--help"@ || args[1] == "-h"@ {
                Err(Seq::empty())
            } else {
                Err("Unknown command '"@ + args[1] + "'."@)
            },
        }
    }
}

/// Whether two strings are equal.
fn same(a: &str, b: &str) -> (r: bool)
    ensures
        r == (a@ == b@),
{
    compare_str(a, b) == 0
}

/// An error message made of a lead, a quoted word and a tail.
fn message(lead: &str, word: &str, tail: &str) -> (m: String)
    ensures
        m@ == lead@ + word@ + tail@,
{
    let mut m = String::new();
    push_str(&mut m, lead);
    push_str(&mut m, word);
    push_str(&mut m, tail);
    m
}

/// Reads the command line (program name first): a command, then flags each
/// followed by a value.
pub fn parse_cli_args(args: Vec<String>) -> (r: Result<(CommandName, QueryOptions, OutputFormat), String>)
    ensures
        match r {
            Ok(p) => parsed_args(views(args@)) == Ok::<(CommandName, QueryModel, OutputFormat), Seq<char>>((p.0, p.1@, p.2)),
            Err(e) => parsed_args(views(args@)) == Err::<(CommandName, QueryModel, OutputFormat), Seq<char>>(e@),
        },
{
    let ghost a = views(args@);
    if args.len() < 2 {
        return Err(owned("Missing command."));
    }
    let word = args[1].as_str();
    assert(a[1] == word@);
    let command = if same(word, "status") {
        CommandName::Status
    } else if same(word, "churn") {
        CommandName::Churn
    } else if same(word, "hotspots") {
        CommandName::Hotspots
    } else if same(word, "contributors") {
        CommandName::Contributors
    } else if same(word, "timeline") {
        CommandName::Timeline
    } else if same(word, "--help") || same(word, "-h") {
        return Err(String::new());
    } else {
        return Err(message("Unknown command '", word, "'."));
    };
    assert(command_of(a[1]) == Some(command));
    let mut options = QueryOptions::default();
    let mut output = OutputFormat::Text;
    assert(options@ == default_query());
    let mut idx: usize = 2;
    while idx < args.len()
        invariant
            2 <= idx,
            a == views(args@),
            a.len() == args@.len(),
            a.len() >= 2,
            command_of(a[1]) == Some(command),
            parse_flags(a, 2, default_query(), OutputFormat::Text) == parse_flags(a, idx as int, options@, output),
        decreases args@.len() - idx,
    {
        let flag = args[idx].as_str();
        assert(a[idx as int] == flag@);
        if idx + 1 >= args.len() {
            return Err(message("Flag '", flag, "' requires a value."));
        }
        let value = owned(args[idx + 1].as_str());
        assert(a[idx + 1] == value@);
        if same(flag, "--repo") {
            options.repo = value;
        } else if same(flag, "--author") {
            options.author = Some(value);
        } else if same(flag, "--since") {
            options.since = Some(value);
        } else if same(flag, "--until") {
            options.until = Some(value);
        } else if same(flag, "--branch") {
            options.branch = Some(value);
        } else if same(flag, "--file-type") {
            options.file_type = Some(value);
        } else if same(flag, "--output") {
            if same(value.as_str(), "text") {
                output = OutputFormat::Text;
            } else if same(value.as_str(), "json") {
                output = OutputFormat::Json;
            } else if same(value.as_str(), "csv") {
                output = OutputFormat::Csv;
            } else {
                return Err(message("Unsupported output format '", value.as_str(), "'."));
            }
        } else {
            return Err(message("Unknown flag '", flag, "'."));
        }
        idx = idx + 2;
    }
    Ok((command, options, output))
}

} // verus!
