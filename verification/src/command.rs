//! The command line of the todo tool: which subcommand was asked for, and
//! what each one does to the store.

use vstd::prelude::*;
use crate::digits::spec_parse_usize;
use crate::record::{records_view, Record};
use crate::store::{
    query, spec_add_line, spec_encode_records, spec_has_sequence, spec_query, spec_remove_first,
    RodoError, TodoDB,
};
use vstd::utf8::encode_utf8;

verus! {

/// What the command line asked for.
pub enum RodoCommand {
    /// Nothing the tool offers; the reason travels along.
    Invalid(String),
    List,
    Info,
    Help,
    Version,
    Add(String),
    Remove(String),
}

/// What a command asks the front end to do: the store itself never touches
/// the file or the screen.
pub enum CommandAction {
    /// Append these bytes at the end of the backing file.
    Append(Vec<u8>),
    /// Replace the backing file with these bytes.
    Rewrite(Vec<u8>),
    /// Show these records, one line each.
    Show(Vec<Record>),
    /// Show this text.
    Print(String),
    /// Show the tool's description and this backing file path.
    Info(String),
}

/// The views of an argument vector.
pub open spec fn strings_view(args: Seq<String>) -> Seq<Seq<char>> {
    Seq::new(args.len(), |i: int| args[i]@)
}

/// Which command an argument vector names.
pub open spec fn command_of(args: Seq<Seq<char>>, cmd: RodoCommand) -> bool {
    if args.len() < 2 {
        cmd matches RodoCommand::Invalid(m) && m@ == "less parameters"@
    } else {
        let sub = args[1];
        if sub == "-h"@ || sub == "--help"@ {
            cmd is Help
        } else if sub == "-v"@ || sub == "--version"@ {
            cmd is Version
        } else if sub == "add"@ {
            if args.len() < 3 {
                cmd matches RodoCommand::Invalid(m) && m@ == "[add] subcommand need item"@
            } else {
                cmd matches RodoCommand::Add(t) && t@ == args[2]
            }
        } else if sub == "list"@ {
            cmd is List
        } else if sub == "info"@ {
            cmd is Info
        } else if sub == "remove"@ {
            if args.len() < 3 {
                cmd matches RodoCommand::Invalid(m) && m@ == "[remove] subcommand need sequence"@
            } else {
                cmd matches RodoCommand::Remove(t) && t@ == args[2]
            }
        } else {
            cmd matches RodoCommand::Invalid(m) && m@ == sub
        }
    }
}

/// Whether an argument reads as the given word.
fn arg_is(a: &String, lit: &str) -> (r: bool)
    ensures
        r == (a@ == lit@),
{
    let owned: String = lit.to_owned();
    *a == owned
}

/// The usage text.
pub open spec fn spec_help_text() -> Seq<char> {
    "rodo 1.0.0\n\nUSAGE:\n    rodo <option|subcommand>\n\nOPTIONALS:\n    -h, --help     Print help information\n    -v, --version  Print version information\n\nSUBCOMMANDS:\n    add      Add a todo item\n    list     List all todo items\n    remove   Remove a todo item\n    info     Show todo info\n"@
}

/// The usage text shown for help.
pub fn show_help() -> (r: String)
    ensures
        r@ == spec_help_text(),
{
    "rodo 1.0.0\n\nUSAGE:\n    rodo <option|subcommand>\n\nOPTIONALS:\n    -h, --help     Print help information\n    -v, --version  Print version information\n\nSUBCOMMANDS:\n    add      Add a todo item\n    list     List all todo items\n    remove   Remove a todo item\n    info     Show todo info\n".to_owned()
}

/// The tool's version.
pub fn version_text() -> (r: String)
    ensures
        r@ == "1.0.0"@,
{
    "1.0.0".to_owned()
}

/// Reads the command from the argument vector: the program name first, then
/// a subcommand or flag, then the subcommand's argument if it takes one.
pub fn parse_command(args: &Vec<String>) -> (cmd: RodoCommand)
    ensures
        command_of(strings_view(args@), cmd),
{
    if args.len() < 2 {
        return RodoCommand::Invalid("less parameters".to_owned());
    }
    let sub = &args[1];
    if arg_is(sub, "-h") || arg_is(sub, "--help") {
        return RodoCommand::Help;
    }
    if arg_is(sub, "-v") || arg_is(sub, "--version") {
        return RodoCommand::Version;
    }
    if arg_is(sub, "add") {
        if args.len() < 3 {
            return RodoCommand::Invalid("[add] subcommand need item".to_owned());
        }
        return RodoCommand::Add(args[2].clone());
    }
    if arg_is(sub, "list") {
        return RodoCommand::List;
    }
    if arg_is(sub, "info") {
        return RodoCommand::Info;
    }
    if arg_is(sub, "remove") {
        if args.len() < 3 {
            return RodoCommand::Invalid("[remove] subcommand need sequence".to_owned());
        }
        return RodoCommand::Remove(args[2].clone());
    }
    RodoCommand::Invalid(sub.clone())
}

/// Carries a command out against the file's current bytes: every branch
/// says exactly what is appended, rewritten, shown or refused.
pub fn handle_command(db: &mut TodoDB, data: &[u8], cmd: &RodoCommand) -> (r: Result<
    CommandAction,
    RodoError,
>)
    requires
        cmd matches RodoCommand::Add(_) ==> old(db).file_index < usize::MAX,
    ensures
        final(db).file_path == old(db).file_path,
        match cmd {
            RodoCommand::Add(msg) => {
                &&& final(db).file_index == old(db).file_index + 1
                &&& r matches Ok(CommandAction::Append(line)) && line@ == spec_add_line(
                    old(db).file_index as nat,
                    encode_utf8(msg@),
                )
            },
            RodoCommand::Remove(s) => {
                &&& *final(db) == *old(db)
                &&& ({
                    let rs = spec_query(data@);
                    match spec_parse_usize(encode_utf8(s@)) {
                        Option::None => r matches Err(e) && e is Parse,
                        Option::Some(v) => {
                            if spec_has_sequence(rs, v as nat) {
                                r matches Ok(CommandAction::Rewrite(bytes)) && bytes@
                                    == spec_encode_records(spec_remove_first(rs, v as nat))
                            } else {
                                r matches Err(e) && e is NotFound
                            }
                        },
                    }
                })
            },
            RodoCommand::List => {
                &&& *final(db) == *old(db)
                &&& r matches Ok(CommandAction::Show(recs)) && records_view(recs@) == spec_query(
                    data@,
                )
            },
            RodoCommand::Info => {
                &&& *final(db) == *old(db)
                &&& r matches Ok(CommandAction::Info(p)) && p@ == old(db).file_path@
            },
            RodoCommand::Help => {
                &&& *final(db) == *old(db)
                &&& r matches Ok(CommandAction::Print(m)) && m@ == spec_help_text()
            },
            RodoCommand::Version => {
                &&& *final(db) == *old(db)
                &&& r matches Ok(CommandAction::Print(m)) && m@ == "1.0.0"@
            },
            RodoCommand::Invalid(msg) => {
                &&& *final(db) == *old(db)
                &&& r matches Err(RodoError::Invalid(m)) && m@ == msg@
            },
        },
{
    match cmd {
        RodoCommand::Add(msg) => Result::Ok(CommandAction::Append(db.add_record(msg.as_str()))),
        RodoCommand::Remove(s) => match db.del_record(data, s.as_str()) {
            Result::Ok(bytes) => Result::Ok(CommandAction::Rewrite(bytes)),
            Result::Err(e) => Result::Err(e),
        },
        RodoCommand::List => Result::Ok(CommandAction::Show(query(data))),
        RodoCommand::Info => Result::Ok(CommandAction::Info(db.file_path.clone())),
        RodoCommand::Help => Result::Ok(CommandAction::Print(show_help())),
        RodoCommand::Version => Result::Ok(CommandAction::Print(version_text())),
        RodoCommand::Invalid(msg) => Result::Err(RodoError::Invalid(msg.clone())),
    }
}

} // verus!
