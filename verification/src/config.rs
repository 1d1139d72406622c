//! Run configuration: what the tool should do, and with which device
//! slot, ports and file.
//!
//! Reading the command line itself is left to the surrounding program;
//! this module holds the validation rules that turn the positional
//! arguments and option values into a checked configuration.

use crate::chars::{parse_u8_digits, spec_is_digit, spec_parse_u8, str_chars};
use vstd::prelude::*;
use vstd::string::{StrSliceExecFns, StringExecFns};

verus! {

/// What the tool is asked to do.
#[derive(Copy, Clone, Debug, PartialEq, Eq, Structural)]
pub enum Mode {
    Download,
    Upload,
}

/// The mode named by a command-line verb.
pub open spec fn spec_mode_from_str(s: Seq<char>) -> Result<Mode, ()> {
    if s == "upload"@ {
        Ok(Mode::Upload)
    } else if s == "download"@ {
        Ok(Mode::Download)
    } else {
        Err(())
    }
}

impl Mode {
    /// Reads a command-line verb.
    pub fn from_str(input: &str) -> (r: Result<Mode, ()>)
        ensures
            r == spec_mode_from_str(input@),
    {
        let v = str_chars(input);
        if crate::chars::eq_str(&v, "upload") {
            Ok(Mode::Upload)
        } else if crate::chars::eq_str(&v, "download") {
            Ok(Mode::Download)
        } else {
            Err(())
        }
    }
}

/// A checked run configuration.
#[derive(Debug, Clone)]
pub struct Config {
    pub in_port: String,
    pub out_port: String,
    pub mode: Mode,
    pub filename: String,
    pub group: u8,
    pub pnum: u8,
    pub ab: u8,
}

/// The mathematical shape of a configuration.
#[verifier::ext_equal]
pub struct ConfigModel {
    pub in_port: Seq<char>,
    pub out_port: Seq<char>,
    pub mode: Mode,
    pub filename: Seq<char>,
    pub group: u8,
    pub pnum: u8,
    pub ab: u8,
}

impl View for Config {
    type V = ConfigModel;

    open spec fn view(&self) -> ConfigModel {
        ConfigModel {
            in_port: self.in_port@,
            out_port: self.out_port@,
            mode: self.mode,
            filename: self.filename@,
            group: self.group,
            pnum: self.pnum,
            ab: self.ab,
        }
    }
}

/// Why the command line was rejected.
#[derive(Copy, Clone, Debug, PartialEq, Eq, Structural)]
pub enum ConfigError {
    /// Fewer than two arguments in all.
    NotEnoughArguments,
    /// Upload named, but fewer than four arguments.
    UploadArguments,
    /// Upload named without a file to read.
    UploadNeedsFile,
    /// Download named, but fewer than three arguments.
    DownloadArguments,
    /// The group is not a number.
    GroupParse,
    /// The group is a number outside 1 to 4.
    GroupRange,
    /// The pattern argument is not two characters.
    PatternLength,
    /// The pattern argument does not start with a digit.
    PatternParse,
    /// The pattern number is outside 1 to 8.
    PatternRange,
    /// The pattern side is neither A nor B.
    PatternSide,
}

/// The default port name of the device.
pub open spec fn spec_default_port() -> Seq<char> {
    "TD-3"@
}

/// The group number denoted by an argument, already shifted to the
/// wire's 0-based form.
pub open spec fn spec_group_of(s: Seq<char>) -> Result<u8, ConfigError> {
    match spec_parse_u8(s) {
        None => Err(ConfigError::GroupParse),
        Some(g) => if 1 <= g <= 4 {
            Ok((g - 1) as u8)
        } else {
            Err(ConfigError::GroupRange)
        },
    }
}

/// The pattern slot denoted by a two-character argument: a digit 1–8,
/// then side A or B in either case.
pub open spec fn spec_slot_of(s: Seq<char>) -> Result<(u8, u8), ConfigError> {
    if s.len() != 2 {
        Err(ConfigError::PatternLength)
    } else if !spec_is_digit(s[0]) {
        Err(ConfigError::PatternParse)
    } else if !(1 <= s[0] as u8 - 48 <= 8) {
        Err(ConfigError::PatternRange)
    } else if s[1] == 'A' || s[1] == 'a' {
        Ok(((s[0] as u8 - 49) as u8, 0u8))
    } else if s[1] == 'B' || s[1] == 'b' {
        Ok(((s[0] as u8 - 49) as u8, 1u8))
    } else {
        Err(ConfigError::PatternSide)
    }
}

/// A port option falls back to the device's own name when absent or
/// empty.
pub open spec fn spec_port_or_default(o: Option<Seq<char>>) -> Seq<char> {
    match o {
        Some(s) => if s.len() > 0 {
            s
        } else {
            spec_default_port()
        },
        None => spec_default_port(),
    }
}

/// The checked configuration of a command line: positional arguments
/// (program name first), and the values of the file and port options.
pub open spec fn spec_get_config(
    args: Seq<Seq<char>>,
    file: Option<Seq<char>>,
    in_port: Option<Seq<char>>,
    out_port: Option<Seq<char>>,
) -> Result<ConfigModel, ConfigError> {
    if args.len() < 2 {
        Err(ConfigError::NotEnoughArguments)
    } else {
        let upload = spec_mode_from_str(args[1]) == Ok::<Mode, ()>(Mode::Upload);
        if upload && args.len() < 4 {
            Err(ConfigError::UploadArguments)
        } else if upload && !(file is Some && file->0.len() > 0) {
            Err(ConfigError::UploadNeedsFile)
        } else if !upload && args.len() < 3 {
            Err(ConfigError::DownloadArguments)
        } else {
            let group_arg = if upload {
                args[2]
            } else {
                args[1]
            };
            let slot_arg = if upload {
                args[3]
            } else {
                args[2]
            };
            match spec_group_of(group_arg) {
                Err(e) => Err(e),
                Ok(group) => match spec_slot_of(slot_arg) {
                    Err(e) => Err(e),
                    Ok((pnum, ab)) => Ok(
                        ConfigModel {
                            in_port: spec_port_or_default(in_port),
                            out_port: spec_port_or_default(out_port),
                            mode: if upload {
                                Mode::Upload
                            } else {
                                Mode::Download
                            },
                            filename: match file {
                                Some(f) => f,
                                None => Seq::<char>::empty(),
                            },
                            group,
                            pnum,
                            ab,
                        },
                    ),
                },
            }
        }
    }
}

fn port_or_default(o: Option<String>) -> (r: String)
    ensures
        r@ == spec_port_or_default(match o {
            Some(ref s) => Some(s@),
            None => None,
        }),
{
    proof {
        reveal_strlit("TD-3");
    }
    match o {
        Some(s) => {
            if s.as_str().unicode_len() > 0 {
                s
            } else {
                String::from_str("TD-3")
            }
        },
        None => String::from_str("TD-3"),
    }
}

/// Checks a command line's positional arguments and option values, and
/// builds the run configuration.
///
/// `args` are the positional arguments with the program name first;
/// `file`, `in_port` and `out_port` are the values of the
/// corresponding options, where given.  The result is exactly
/// `spec_get_config` of those values: the group is 1–4 on the command
/// line and 0-based in the result, the pattern slot is a digit 1–8
/// plus side `A` or `B`, and missing or empty ports fall back to the
/// device's name.
pub fn get_config(
    args: &Vec<String>,
    file: Option<String>,
    in_port: Option<String>,
    out_port: Option<String>,
) -> (r: Result<Config, ConfigError>)
    ensures
        ({
            let fs = match file {
                Some(ref f) => Some(f@),
                None => None,
            };
            let is = match in_port {
                Some(ref s) => Some(s@),
                None => None,
            };
            let os = match out_port {
                Some(ref s) => Some(s@),
                None => None,
            };
            match r {
                Ok(c) => spec_get_config(args.deep_view(), fs, is, os) == Ok::<
                    ConfigModel,
                    ConfigError,
                >(c@),
                Err(e) => spec_get_config(args.deep_view(), fs, is, os) == Err::<
                    ConfigModel,
                    ConfigError,
                >(e),
            }
        }),
{
    let ghost adeep = args.deep_view();
    if args.len() < 2 {
        return Err(ConfigError::NotEnoughArguments);
    }
    proof {
        assert(adeep[1] == args@[1]@);
    }
    let upload = match Mode::from_str(args[1].as_str()) {
        Ok(Mode::Upload) => true,
        _ => false,
    };
    if upload && args.len() < 4 {
        return Err(ConfigError::UploadArguments);
    }
    let file_missing = match file {
        Some(ref f) => f.as_str().unicode_len() == 0,
        None => true,
    };
    if upload && file_missing {
        return Err(ConfigError::UploadNeedsFile);
    }
    if !upload && args.len() < 3 {
        return Err(ConfigError::DownloadArguments);
    }
    let group_arg: &String = if upload {
        &args[2]
    } else {
        &args[1]
    };
    let slot_arg: &String = if upload {
        &args[3]
    } else {
        &args[2]
    };
    proof {
        assert(adeep[2] == args@[2]@);
        if upload {
            assert(adeep[3] == args@[3]@);
        }
    }
    let gchars = str_chars(group_arg.as_str());
    let group: u8 = match parse_u8_digits(&gchars) {
        None => {
            return Err(ConfigError::GroupParse);
        },
        Some(g) => {
            if 1 <= g && g <= 4 {
                g - 1
            } else {
                return Err(ConfigError::GroupRange);
            }
        },
    };
    let schars = str_chars(slot_arg.as_str());
    if schars.len() != 2 {
        return Err(ConfigError::PatternLength);
    }
    let d = schars[0];
    if d < '0' || d > '9' {
        return Err(ConfigError::PatternParse);
    }
    let dv = (d as u8) - 48;
    if !(1 <= dv && dv <= 8) {
        return Err(ConfigError::PatternRange);
    }
    let side = schars[1];
    let ab: u8 = if side == 'A' || side == 'a' {
        0
    } else if side == 'B' || side == 'b' {
        1
    } else {
        return Err(ConfigError::PatternSide);
    };
    let filename = match file {
        Some(f) => f,
        None => String::new(),
    };
    let c = Config {
        in_port: port_or_default(in_port),
        out_port: port_or_default(out_port),
        mode: if upload {
            Mode::Upload
        } else {
            Mode::Download
        },
        filename,
        group,
        pnum: dv - 1,
        ab,
    };
    Ok(c)
}

} // verus!
