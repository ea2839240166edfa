//! Log levels and the rule that says which messages a logger lets through.
//!
//! The logger here decides and formats. Printing a line, with the time it
//! is printed at, is left to the program that owns the terminal.

use vstd::prelude::*;
use crate::utils::string_utils::StringBuilder;

verus! {

#[derive(Clone, Copy, Debug, Eq, PartialEq, Structural)]
pub enum EnumLogLevel {
    FATAL,
    ERROR,
    WARN,
    INFO,
    DEBUG,
}

impl EnumLogLevel {
    /// The rank of the level: the more a level lets through, the greater.
    pub open spec fn rank(self) -> nat {
        match self {
            EnumLogLevel::FATAL => 0,
            EnumLogLevel::ERROR => 1,
            EnumLogLevel::WARN => 2,
            EnumLogLevel::INFO => 3,
            EnumLogLevel::DEBUG => 4,
        }
    }

    /// The name of the level, in capitals.
    pub open spec fn name(self) -> Seq<char> {
        match self {
            EnumLogLevel::FATAL => "FATAL"@,
            EnumLogLevel::ERROR => "ERROR"@,
            EnumLogLevel::WARN => "WARN"@,
            EnumLogLevel::INFO => "INFO"@,
            EnumLogLevel::DEBUG => "DEBUG"@,
        }
    }

    pub fn ordinal(self) -> (r: u32)
        ensures
            r == self.rank(),
    {
        match self {
            EnumLogLevel::FATAL => 0,
            EnumLogLevel::ERROR => 1,
            EnumLogLevel::WARN => 2,
            EnumLogLevel::INFO => 3,
            EnumLogLevel::DEBUG => 4,
        }
    }

    pub fn to_string(&self) -> (r: String)
        ensures
            r@ == self.name(),
    {
        match self {
            EnumLogLevel::DEBUG => "DEBUG".to_string(),
            EnumLogLevel::ERROR => "ERROR".to_string(),
            EnumLogLevel::FATAL => "FATAL".to_string(),
            EnumLogLevel::INFO => "INFO".to_string(),
            EnumLogLevel::WARN => "WARN".to_string(),
        }
    }
}

/// The text that `str::to_uppercase` gives for a text.
pub uninterp spec fn uppercase(text: Seq<char>) -> Seq<char>;

/// Turns a text to upper case with `str::to_uppercase`. What comes back
/// depends on the text alone, and it is named [`uppercase`].
#[verifier::external_body]
fn to_uppercase(text: &String) -> (r: String)
    ensures
        r@ == uppercase(text@),
{
    text.to_uppercase()
}

/// The message for a text that names no level.
pub open spec fn no_level_message() -> Seq<char> {
    "String is not a EnumLogLevel"@
}

/// The level that a text in upper case names.
pub open spec fn level_of(upper: Seq<char>) -> Option<EnumLogLevel> {
    if upper == "DEBUG"@ {
        Some(EnumLogLevel::DEBUG)
    } else if upper == "ERROR"@ {
        Some(EnumLogLevel::ERROR)
    } else if upper == "FATAL"@ {
        Some(EnumLogLevel::FATAL)
    } else if upper == "INFO"@ {
        Some(EnumLogLevel::INFO)
    } else if upper == "WARN"@ {
        Some(EnumLogLevel::WARN)
    } else {
        None
    }
}

/// The level that `upper` names, which must be written in capitals.
pub fn log_level_from_upper(upper: &String) -> (r: Result<EnumLogLevel, String>)
    ensures
        match level_of(upper@) {
            Some(level) => r == Ok::<EnumLogLevel, String>(level),
            None => r matches Err(m) && m@ == no_level_message(),
        },
{
    if *upper == "DEBUG".to_string() {
        Ok(EnumLogLevel::DEBUG)
    } else if *upper == "ERROR".to_string() {
        Ok(EnumLogLevel::ERROR)
    } else if *upper == "FATAL".to_string() {
        Ok(EnumLogLevel::FATAL)
    } else if *upper == "INFO".to_string() {
        Ok(EnumLogLevel::INFO)
    } else if *upper == "WARN".to_string() {
        Ok(EnumLogLevel::WARN)
    } else {
        Err("String is not a EnumLogLevel".to_string())
    }
}

/// The level that `string` names, in whatever case it is written.
pub fn get_log_level_from_string(string: &String) -> (r: Result<EnumLogLevel, String>)
    ensures
        match level_of(uppercase(string@)) {
            Some(level) => r == Ok::<EnumLogLevel, String>(level),
            None => r matches Err(m) && m@ == no_level_message(),
        },
{
    let string_upper = to_uppercase(string);
    log_level_from_upper(&string_upper)
}

/// The line that is logged for a message: the level in brackets, the time,
/// a colon and the message.
pub open spec fn log_line(level: EnumLogLevel, timestamp: Seq<char>, msg: Seq<char>) -> Seq<char> {
    seq!['['] + level.name() + seq![']', ' '] + timestamp + seq![':', ' '] + msg
}

/// A logger that lets through the messages up to its current level.
#[derive(Debug)]
pub struct STDLogger {
    pub cur_log_level: EnumLogLevel,
}

impl STDLogger {
    /// A logger at the level `WARN`.
    pub fn new() -> (r: Self)
        ensures
            r.cur_log_level == EnumLogLevel::WARN,
    {
        STDLogger { cur_log_level: EnumLogLevel::WARN }
    }

    /// Whether a message of the level `log_level` is let through.
    pub fn can_log(&self, log_level: EnumLogLevel) -> (r: bool)
        ensures
            r == (self.cur_log_level.rank() >= log_level.rank()),
    {
        self.cur_log_level.ordinal() >= log_level.ordinal()
    }

    pub fn set_log_level(&mut self, log_level: EnumLogLevel)
        ensures
            final(self).cur_log_level == log_level,
    {
        self.cur_log_level = log_level;
    }

    /// The line to print for a message of the given level at the given
    /// time, or nothing where the logger does not let the level through.
    pub fn line(&self, level: EnumLogLevel, timestamp: &String, msg: &String) -> (r: Option<String>)
        ensures
            match r {
                Some(text) => self.cur_log_level.rank() >= level.rank() && text@ == log_line(
                    level,
                    timestamp@,
                    msg@,
                ),
                None => self.cur_log_level.rank() < level.rank(),
            },
    {
        if !self.can_log(level) {
            return None;
        }
        let mut builder = StringBuilder::new(64);
        builder.append_char('[');
        builder.append_string(&level.to_string());
        builder.append_char(']');
        builder.append_char(' ');
        builder.append_string(timestamp);
        builder.append_char(':');
        builder.append_char(' ');
        builder.append_string(msg);
        assert(builder@ =~= log_line(level, timestamp@, msg@));
        Some(builder.to_string())
    }
}

} // verus!
