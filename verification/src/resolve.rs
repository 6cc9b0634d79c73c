//! Resolution of a search request from the raw process arguments, the
//! piped input (if any) and the case-mode toggle.

use vstd::prelude::*;

verus! {

/// Whether substring matching ignores letter case.
#[derive(Debug, Clone, Copy)]
pub enum Case {
    Sensitive,
    Insensitive,
}

/// Where the text to search comes from: a file named on the command
/// line, or text already captured from the piped standard input.
#[derive(Debug, PartialEq, Eq)]
pub enum Data {
    File(String),
    Pipe(String),
}

/// A fully resolved search request: the search string, the content
/// source, and the case mode.
#[derive(Debug)]
pub struct Args {
    pub search_string: String,
    pub data: Data,
    pub case: Case,
}

impl Args {
    pub fn new(args: (String, Data, Case)) -> (r: Self)
        ensures
            r.search_string == args.0,
            r.data == args.1,
            r.case == args.2,
    {
        Self { search_string: args.0, data: args.1, case: args.2 }
    }
}

/// Selects the case mode from whether the environment toggle is set:
/// set (to any value) means insensitive, unset means sensitive.
pub fn case_for(ignore_case_set: bool) -> (c: Case)
    ensures
        c == (if ignore_case_set {
            Case::Insensitive
        } else {
            Case::Sensitive
        }),
{
    if ignore_case_set {
        Case::Insensitive
    } else {
        Case::Sensitive
    }
}

/// Checks the argument count against the input mode: one argument (the
/// search string) when input is piped, two (search string and file
/// path) when it is not.
pub fn validate_args(piped_data: &Option<String>, cmd_args: &Vec<String>) -> (r: Result<
    (),
    &'static str,
>)
    ensures
        r is Ok <==> ((piped_data is Some && cmd_args@.len() == 1) || (piped_data is None
            && cmd_args@.len() == 2)),
        piped_data is Some && cmd_args@.len() != 1 ==> (r matches Err(e) && e@
            == "Incorrect number of arguments. 1 needed.\nUsage: <binary> <search string>"@),
        piped_data is None && cmd_args@.len() != 2 ==> (r matches Err(e) && e@
            == "Incorrect number of arguments. 2 needed.\nUsage: <binary> <search string> <file path>"@),
{
    if piped_data.is_some() {
        if cmd_args.len() != 1 {
            return Err(
                "Incorrect number of arguments. 1 needed.\nUsage: <binary> <search string>",
            );
        }
    } else if cmd_args.len() != 2 {
        return Err(
            "Incorrect number of arguments. 2 needed.\nUsage: <binary> <search string> <file path>",
        );
    }
    Ok(())
}

/// Resolves the full search request from the raw process arguments
/// (program name first), the piped input if any, and the case mode.
/// The program name is discarded; with piped input the one remaining
/// argument is the search string, without it the two remaining
/// arguments are the search string and the file path.
pub fn parse_args(cmd_args: Vec<String>, piped_data: Option<String>, case: Case) -> (r: Result<
    Args,
    &'static str,
>)
    requires
        cmd_args@.len() >= 1,
    ensures
        r is Ok <==> ((piped_data is Some && cmd_args@.len() == 2) || (piped_data is None
            && cmd_args@.len() == 3)),
        r matches Ok(a) ==> a.case == case && a.search_string@ == cmd_args@[1]@,
        piped_data matches Some(p) ==> (r matches Ok(a) ==> (a.data matches Data::Pipe(q) && q@
            == p@)),
        piped_data is None ==> (r matches Ok(a) ==> (a.data matches Data::File(f) && f@
            == cmd_args@[2]@)),
        piped_data is Some && cmd_args@.len() != 2 ==> (r matches Err(e) && e@
            == "Incorrect number of arguments. 1 needed.\nUsage: <binary> <search string>"@),
        piped_data is None && cmd_args@.len() != 3 ==> (r matches Err(e) && e@
            == "Incorrect number of arguments. 2 needed.\nUsage: <binary> <search string> <file path>"@),
{
    let mut cmd_args = cmd_args;
    cmd_args.remove(0);

    match validate_args(&piped_data, &cmd_args) {
        Err(e) => {
            return Err(e);
        },
        Ok(()) => {},
    }

    let search_string = cmd_args.remove(0);
    match piped_data {
        Some(p) => Ok(Args::new((search_string, Data::Pipe(p), case))),
        None => {
            let file_path = cmd_args.remove(0);
            Ok(Args::new((search_string, Data::File(file_path), case)))
        },
    }
}

} // verus!
