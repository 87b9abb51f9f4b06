//! The command line.

use crate::text::is_text;
use vstd::prelude::*;
use vstd::string::*;

verus! {

/// Whether an argument begins with a dash.
pub open spec fn is_flag(arg: Seq<char>) -> bool {
    arg.len() > 0 && arg[0] == '-'
}

/// The configuration file that the arguments from `i` on name, if `path` was
/// named before. `None` where the arguments make no sense or ask for help.
pub open spec fn path_from(args: Seq<String>, i: int, path: Option<Seq<char>>) -> Option<Seq<char>>
    decreases args.len() - i,
{
    if i < 0 || i >= args.len() {
        Some(
            match path {
                Some(p) => p,
                None => "config.toml"@,
            },
        )
    } else if args[i]@ == "--config"@ || args[i]@ == "-c"@ {
        if i + 1 < args.len() {
            path_from(args, i + 2, Some(args[i + 1]@))
        } else {
            None
        }
    } else if args[i]@ == "--help"@ || args[i]@ == "-h"@ {
        None
    } else if path is None && !is_flag(args[i]@) {
        path_from(args, i + 1, Some(args[i]@))
    } else {
        None
    }
}

/// The configuration file that the arguments name; `None` to show how the
/// program is used.
pub fn config_path(args: &Vec<String>) -> (r: Option<String>)
    ensures
        match r {
            Some(p) => path_from(args@, 0, None) == Some(p@),
            None => path_from(args@, 0, None) is None,
        },
{
    let mut path: Option<String> = None;
    let mut i: usize = 0;
    while i < args.len()
        invariant
            i <= args@.len(),
            path_from(args@, 0, None) == path_from(
                args@,
                i as int,
                match path {
                    Some(p) => Some(p@),
                    None => None,
                },
            ),
        decreases args@.len() - i,
    {
        let arg = &args[i];
        if is_text(arg, "--config") || is_text(arg, "-c") {
            if i + 1 >= args.len() {
                return None;
            }
            path = Some(args[i + 1].clone());
            i = i + 2;
        } else if is_text(arg, "--help") || is_text(arg, "-h") {
            return None;
        } else {
            let flag: bool = !arg.as_str().is_empty() && arg.as_str().get_char(0) == '-';
            if path.is_some() || flag {
                return None;
            }
            path = Some(arg.clone());
            i = i + 1;
        }
    }
    match path {
        Some(p) => Some(p),
        None => Some("config.toml".to_owned()),
    }
}

} // verus!
