//! The command line: which file to read and at which level to log.

use vstd::prelude::*;
use crate::log::logger::EnumLogLevel;
use crate::log::logger::STDLogger;
use crate::log::logger::get_log_level_from_string;
use crate::log::logger::level_of;
use crate::log::logger::no_level_message;
use crate::log::logger::uppercase;
use crate::utils::string_utils::StringBuilder;

verus! {

/// What the arguments read so far have set.
pub ghost struct CliState {
    pub input_file: Option<Seq<char>>,
    pub log_level: EnumLogLevel,
    pub warnings: Seq<Seq<char>>,
}

/// The help text.
pub open spec fn usage_text() -> Seq<char> {
    "Usage: rson\n"@
        + "NOTE: with no supplied arguments, this will read from std input.\n      You may prefer to run from an input file. See '--input' below.\n"@
        + seq!['\n'] + "-h,--help                         Prints this help menu.\n"@
        + "-i,--input <FILE>                 Specifies to read from a file rather than std input.\n"@
        + "-l,--log-level <log-level>        Sets the log level.\n"@
}

/// The message for `--input` without a value.
pub open spec fn missing_input_message() -> Seq<char> {
    "Expected an input file after the argument '--input'"@
}

/// The message for `--log-level` without a value.
pub open spec fn missing_level_message() -> Seq<char> {
    "Expected an input file after the argument '--log-level'"@
}

/// The message for an argument that is no flag.
pub open spec fn invalid_argument_message(arg: Seq<char>) -> Seq<char> {
    "Invalid argument ('"@ + arg + "')"@
}

/// What reading the arguments from the one at `i` on gives: the state
/// after them, and the exit code with its message where reading stops
/// early. `-h` stops with code 0 and the help text. `-i` and `-l` take the
/// argument after them as their value and stop with code -1 where there is
/// none. A level that is not known leaves the level as it is and adds a
/// warning, if the level at that point lets warnings through. Any other
/// argument stops with code -2.
pub open spec fn parse_from(args: Seq<Seq<char>>, i: int, st: CliState) -> (
    CliState,
    Option<(int, Seq<char>)>,
)
    decreases args.len() - i,
{
    if i < 0 || i >= args.len() {
        (st, None)
    } else {
        let arg = args[i];
        if arg == "-h"@ || arg == "--help"@ {
            (st, Some((0, usage_text())))
        } else if arg == "-i"@ || arg == "--input"@ {
            if i + 1 >= args.len() {
                (st, Some((-1, missing_input_message())))
            } else {
                parse_from(
                    args,
                    i + 2,
                    CliState {
                        input_file: Some(args[i + 1]),
                        log_level: st.log_level,
                        warnings: st.warnings,
                    },
                )
            }
        } else if arg == "-l"@ || arg == "--log-level"@ {
            if i + 1 >= args.len() {
                (st, Some((-1, missing_level_message())))
            } else {
                match level_of(uppercase(args[i + 1])) {
                    Some(level) => parse_from(
                        args,
                        i + 2,
                        CliState {
                            input_file: st.input_file,
                            log_level: level,
                            warnings: st.warnings,
                        },
                    ),
                    None => parse_from(
                        args,
                        i + 2,
                        CliState {
                            input_file: st.input_file,
                            log_level: st.log_level,
                            warnings: if st.log_level.rank() >= EnumLogLevel::WARN.rank() {
                                st.warnings.push(no_level_message())
                            } else {
                                st.warnings
                            },
                        },
                    ),
                }
            }
        } else {
            (st, Some((-2, invalid_argument_message(arg))))
        }
    }
}

/// A level that is not known leaves the level as it is: after the
/// program's name, `-l` or `--log-level` with a value that names no level
/// changes nothing but the warnings, to which one is added if the level
/// lets warnings through, and reading goes on to the end.
pub proof fn law_unknown_level_keeps_level(name: Seq<char>, flag: Seq<char>, value: Seq<char>, st: CliState)
    requires
        flag == "-l"@ || flag == "--log-level"@,
        level_of(uppercase(value)) is None,
    ensures
        parse_from(seq![name, flag, value], 1, st) == (
            CliState {
                input_file: st.input_file,
                log_level: st.log_level,
                warnings: if st.log_level.rank() >= EnumLogLevel::WARN.rank() {
                    st.warnings.push(no_level_message())
                } else {
                    st.warnings
                },
            },
            None::<(int, Seq<char>)>,
        ),
{
    reveal_strlit("-h");
    reveal_strlit("--help");
    reveal_strlit("-i");
    reveal_strlit("--input");
    reveal_strlit("-l");
    reveal_strlit("--log-level");
    let args = seq![name, flag, value];
    assert(args[1] == flag);
    assert(args[2] == value);
    assert(flag != "-h"@) by {
        assert(flag[1] != "-h"@[1]);
    }
    assert(flag != "--help"@) by {
        if flag == "-l"@ {
            assert(flag.len() != "--help"@.len());
        } else {
            assert(flag[2] != "--help"@[2]);
        }
    }
    assert(flag != "-i"@) by {
        assert(flag[1] != "-i"@[1]);
    }
    assert(flag != "--input"@) by {
        if flag == "-l"@ {
            assert(flag.len() != "--input"@.len());
        } else {
            assert(flag[2] != "--input"@[2]);
        }
    }
    reveal_with_fuel(parse_from, 2);
}

/// A level that is known becomes the level: after the program's name,
/// `-l` or `--log-level` with a value that names a level sets that level
/// and changes nothing else.
pub proof fn law_known_level_is_set(name: Seq<char>, flag: Seq<char>, value: Seq<char>, st: CliState)
    requires
        flag == "-l"@ || flag == "--log-level"@,
        level_of(uppercase(value)) is Some,
    ensures
        parse_from(seq![name, flag, value], 1, st) == (
            CliState {
                input_file: st.input_file,
                log_level: level_of(uppercase(value))->0,
                warnings: st.warnings,
            },
            None::<(int, Seq<char>)>,
        ),
{
    reveal_strlit("-h");
    reveal_strlit("--help");
    reveal_strlit("-i");
    reveal_strlit("--input");
    reveal_strlit("-l");
    reveal_strlit("--log-level");
    let args = seq![name, flag, value];
    assert(args[1] == flag);
    assert(args[2] == value);
    assert(flag != "-h"@) by {
        assert(flag[1] != "-h"@[1]);
    }
    assert(flag != "--help"@) by {
        if flag == "-l"@ {
            assert(flag.len() != "--help"@.len());
        } else {
            assert(flag[2] != "--help"@[2]);
        }
    }
    assert(flag != "-i"@) by {
        assert(flag[1] != "-i"@[1]);
    }
    assert(flag != "--input"@) by {
        if flag == "-l"@ {
            assert(flag.len() != "--input"@.len());
        } else {
            assert(flag[2] != "--input"@[2]);
        }
    }
    reveal_with_fuel(parse_from, 2);
}

/// The texts of a vector of strings.
pub open spec fn texts(args: Seq<String>) -> Seq<Seq<char>> {
    Seq::new(args.len(), |i: int| args[i]@)
}

/// The settings that the command line gives.
#[derive(Debug)]
pub struct CLIArgs {
    pub input_file: Option<String>,
    pub log_level: EnumLogLevel,
    /// The warnings that reading the arguments gave and that the level at
    /// that point let through, oldest first.
    pub warnings: Vec<String>,
}

impl CLIArgs {
    /// What the settings are, as plain values.
    pub open spec fn state(&self) -> CliState {
        CliState {
            input_file: match self.input_file {
                Some(file) => Some(file@),
                None => None,
            },
            log_level: self.log_level,
            warnings: texts(self.warnings@),
        }
    }

    /// No input file, the level `WARN`, no warnings.
    pub fn new() -> (r: Self)
        ensures
            r.input_file is None,
            r.log_level == EnumLogLevel::WARN,
            r.warnings@.len() == 0,
    {
        Self { input_file: None, log_level: EnumLogLevel::WARN, warnings: Vec::new() }
    }

    /// The help text.
    pub fn get_usage(&self) -> (r: String)
        ensures
            r@ == usage_text(),
    {
        let mut builder = StringBuilder::new(1024);
        builder.append_str("Usage: rson\n");
        builder.append_str(
            "NOTE: with no supplied arguments, this will read from std input.\n      You may prefer to run from an input file. See '--input' below.\n",
        );
        builder.append_char('\n');
        builder.append_str("-h,--help                         Prints this help menu.\n");
        builder.append_str(
            "-i,--input <FILE>                 Specifies to read from a file rather than std input.\n",
        );
        builder.append_str("-l,--log-level <log-level>        Sets the log level.\n");
        assert(builder@ =~= usage_text());
        builder.to_string()
    }

    /// Reads the arguments after the program's name.
    pub fn parse(&mut self, args: &Vec<String>) -> (r: Option<(i32, String)>)
        ensures
            final(self).state() == parse_from(texts(args@), 1, old(self).state()).0,
            match parse_from(texts(args@), 1, old(self).state()).1 {
                Some((code, message)) => r matches Some((c, m)) && c == code && m@ == message,
                None => r is None,
            },
    {
        let ghost all = texts(args@);
        let ghost first = self.state();
        let arg_count = args.len();
        let mut i: usize = 1;
        while i < arg_count
            invariant
                1 <= i,
                arg_count == args@.len(),
                all == texts(args@),
                first == old(self).state(),
                parse_from(all, 1, first) == parse_from(all, i as int, self.state()),
            decreases arg_count - i,
        {
            let arg = &args[i];
            assert(all[i as int] == arg@);
            if *arg == "-h".to_string() || *arg == "--help".to_string() {
                let msg = self.get_usage();
                return Some((0, msg));
            } else if *arg == "-i".to_string() || *arg == "--input".to_string() {
                if i + 1 >= arg_count {
                    return Some(
                        (-1, "Expected an input file after the argument '--input'".to_string()),
                    );
                }
                assert(all[i + 1] == args@[i + 1]@);
                self.input_file = Some(args[i + 1].clone());
                i += 2;
            } else if *arg == "-l".to_string() || *arg == "--log-level".to_string() {
                if i + 1 >= arg_count {
                    return Some(
                        (-1, "Expected an input file after the argument '--log-level'".to_string()),
                    );
                }
                assert(all[i + 1] == args@[i + 1]@);
                let result_log_level = get_log_level_from_string(&args[i + 1]);
                match result_log_level {
                    Ok(log_level) => {
                        self.log_level = log_level;
                    },
                    Err(msg) => {
                        let logger = STDLogger { cur_log_level: self.log_level };
                        if logger.can_log(EnumLogLevel::WARN) {
                            let ghost before = texts(self.warnings@);
                            self.warnings.push(msg);
                            assert(texts(self.warnings@) =~= before.push(no_level_message()));
                        }
                    },
                }
                i += 2;
            } else {
                let mut err_msg = StringBuilder::new(64);
                err_msg.append_str("Invalid argument ('");
                err_msg.append_string(arg);
                err_msg.append_str("')");
                assert(err_msg@ =~= invalid_argument_message(arg@));
                return Some((-2, err_msg.to_string()));
            }
        }
        None
    }
}

} // verus!
