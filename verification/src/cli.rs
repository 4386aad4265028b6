//! The command line: a pin link and an optional destination directory.

use vstd::prelude::*;

verus! {

/// What the command line asks for.
#[derive(Debug, Clone, PartialEq, Eq)]
pub struct Config {
    /// The pin link.
    pub pin_url: String,
    /// The destination directory; the current directory when absent.
    pub dest_dir: Option<String>,
}

impl Config {
    /// Reads the arguments that follow the program name: the pin link, which is
    /// required, then the destination directory, which is optional; further arguments
    /// are ignored.
    pub fn build(args: Vec<String>) -> (res: Result<Config, &'static str>)
        ensures
            args@.len() == 0 <==> res is Err,
            res matches Err(e) ==> e@ == "Pin URL is required"@,
            res matches Ok(config) ==> {
                &&& config.pin_url@ == args@[0]@
                &&& args@.len() >= 2 ==> (config.dest_dir matches Some(dir) && dir@ == args@[1]@)
                &&& args@.len() < 2 ==> config.dest_dir is None
            },
    {
        let mut args = args;
        if args.len() == 0 {
            return Err("Pin URL is required");
        }
        let pin_url = args.remove(0);
        let dest_dir = if args.len() == 0 {
            None
        } else {
            Some(args.remove(0))
        };
        Ok(Config { pin_url, dest_dir })
    }
}

} // verus!
