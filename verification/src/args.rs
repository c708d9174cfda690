//! Command-line argument parsing: leading flags, then — unless listening
//! for LAN games — a required host and an optional port.

use vstd::prelude::*;

use crate::json::str_eq;
use crate::numtext::spec_parse_u16;
use crate::numtext::parse_u16;

verus! {

/// The ways the command line can be rejected.
#[derive(Clone, Copy, Debug, PartialEq, Eq, Structural)]
pub enum ArgsError {
    /// A leading `-` argument that is none of the known flags.
    UnrecognizedFlag,
    /// The favicon flag combined with LAN mode.
    FaviconWithLan,
    /// No address was provided in ping mode.
    MissingAddress,
    /// The port argument is not a decimal 16-bit number.
    InvalidPort,
    /// Arguments remain after the expected ones.
    TrailingArguments,
}

/// The parsed command line.
#[derive(Debug, PartialEq)]
pub struct CommandLineArguments {
    pub get_favicon: bool,
    pub raw_response: bool,
    pub verbose: bool,
    pub open_to_lan: bool,
    pub host: String,
    pub port: u16,
}

/// The mathematical shape of a parsed command line.
pub struct ArgsModel {
    pub get_favicon: bool,
    pub raw_response: bool,
    pub verbose: bool,
    pub open_to_lan: bool,
    pub host: Seq<char>,
    pub port: u16,
}

impl View for CommandLineArguments {
    type V = ArgsModel;

    open spec fn view(&self) -> ArgsModel {
        ArgsModel {
            get_favicon: self.get_favicon,
            raw_response: self.raw_response,
            verbose: self.verbose,
            open_to_lan: self.open_to_lan,
            host: self.host@,
            port: self.port,
        }
    }
}

/// The defaults everything starts from: ping mode, host empty, the
/// standard port.
pub open spec fn default_args() -> ArgsModel {
    ArgsModel {
        get_favicon: false,
        raw_response: false,
        verbose: false,
        open_to_lan: false,
        host: Seq::<char>::empty(),
        port: 25565,
    }
}

/// Whether an argument is flag-shaped.
pub open spec fn is_flag(a: Seq<char>) -> bool {
    a.len() > 0 && a[0] == '-'
}

/// Parsing the arguments after the program name, starting from `m`: flags
/// while they last, then in LAN mode nothing more, else a host and an
/// optional port, and in either mode no arguments left over.
pub open spec fn spec_parse_args(rest: Seq<String>, m: ArgsModel) -> Result<ArgsModel, ArgsError>
    decreases rest.len(),
{
    if rest.len() > 0 && is_flag(rest[0]@) {
        let a = rest[0]@;
        if a == "-v"@ || a == "--verbose"@ {
            spec_parse_args(rest.drop_first(), ArgsModel { verbose: true, ..m })
        } else if a == "-f"@ || a == "--favicon"@ {
            spec_parse_args(rest.drop_first(), ArgsModel { get_favicon: true, ..m })
        } else if a == "-r"@ || a == "--raw-response"@ {
            spec_parse_args(rest.drop_first(), ArgsModel { raw_response: true, ..m })
        } else if a == "-l"@ || a == "--lan"@ {
            spec_parse_args(rest.drop_first(), ArgsModel { open_to_lan: true, ..m })
        } else {
            Err(ArgsError::UnrecognizedFlag)
        }
    } else if m.open_to_lan {
        if m.get_favicon {
            Err(ArgsError::FaviconWithLan)
        } else if rest.len() == 0 {
            Ok(m)
        } else {
            Err(ArgsError::TrailingArguments)
        }
    } else if rest.len() == 0 {
        Err(ArgsError::MissingAddress)
    } else {
        let with_host = ArgsModel { host: rest[0]@, ..m };
        if rest.len() == 1 {
            Ok(with_host)
        } else {
            match spec_parse_u16(rest[1]@) {
                None => Err(ArgsError::InvalidPort),
                Some(p) => if rest.len() == 2 {
                    Ok(ArgsModel { port: p, ..with_host })
                } else {
                    Err(ArgsError::TrailingArguments)
                },
            }
        }
    }
}

/// Parsing a whole command line: the first argument is the program name.
pub open spec fn spec_parse(args: Seq<String>) -> Result<ArgsModel, ArgsError> {
    if args.len() == 0 {
        spec_parse_args(Seq::<String>::empty(), default_args())
    } else {
        spec_parse_args(args.skip(1), default_args())
    }
}

impl CommandLineArguments {
    /// Parses the command line (program name first), as [`spec_parse`]
    /// says: flags first, then in ping mode a required host and an optional
    /// port; unknown flags, a bad port, the favicon flag in LAN mode, and
    /// leftover arguments are each their own error.
    pub fn parse(args: &Vec<String>) -> (r: Result<CommandLineArguments, ArgsError>)
        ensures
            match r {
                Ok(a) => spec_parse(args@) == Ok::<ArgsModel, ArgsError>(a@),
                Err(e) => spec_parse(args@) == Err::<ArgsModel, ArgsError>(e),
            },
    {
        let mut cur = CommandLineArguments {
            get_favicon: false,
            raw_response: false,
            verbose: false,
            open_to_lan: false,
            host: String::new(),
            port: 25565,
        };
        let n = args.len();
        if n == 0 {
            return Err(ArgsError::MissingAddress);
        }
        let mut i: usize = 1;
        proof {
            assert(args@.skip(1) == args@.skip(1int));
        }
        while i < n
            invariant_except_break
                1 <= i <= n,
                n == args@.len(),
                spec_parse_args(args@.skip(i as int), cur@) == spec_parse(args@),
            ensures
                1 <= i <= n,
                n == args@.len(),
                spec_parse_args(args@.skip(i as int), cur@) == spec_parse(args@),
                i < n ==> !is_flag(args@[i as int]@),
            decreases n - i,
        {
            proof {
                assert(args@.skip(i as int)[0] == args@[i as int]);
                assert(args@.skip(i as int).drop_first() =~= args@.skip(i + 1));
            }
            let a = &args[i];
            let alen = a.as_str().unicode_len();
            if !(alen > 0 && a.as_str().get_char(0) == '-') {
                break;
            }
            if str_eq(a.as_str(), "-v") || str_eq(a.as_str(), "--verbose") {
                cur.verbose = true;
            } else if str_eq(a.as_str(), "-f") || str_eq(a.as_str(), "--favicon") {
                cur.get_favicon = true;
            } else if str_eq(a.as_str(), "-r") || str_eq(a.as_str(), "--raw-response") {
                cur.raw_response = true;
            } else if str_eq(a.as_str(), "-l") || str_eq(a.as_str(), "--lan") {
                cur.open_to_lan = true;
            } else {
                return Err(ArgsError::UnrecognizedFlag);
            }
            i = i + 1;
        }
        proof {
            if i < n {
                assert(args@.skip(i as int)[0] == args@[i as int]);
            }
        }
        if cur.open_to_lan {
            if cur.get_favicon {
                return Err(ArgsError::FaviconWithLan);
            }
            if i < n {
                return Err(ArgsError::TrailingArguments);
            }
            return Ok(cur);
        }
        if i == n {
            return Err(ArgsError::MissingAddress);
        }
        cur.host = args[i].clone();
        if i + 1 == n {
            return Ok(cur);
        }
        proof {
            assert(args@.skip(i as int)[1] == args@[i + 1]);
        }
        let port = match parse_u16(args[i + 1].as_str()) {
            Some(p) => p,
            None => {
                return Err(ArgsError::InvalidPort);
            },
        };
        cur.port = port;
        if i + 2 == n {
            Ok(cur)
        } else {
            Err(ArgsError::TrailingArguments)
        }
    }
}

} // verus!
