//! The error type shared by configuration loading, route resolution and
//! program execution.

use vstd::prelude::*;

verus! {

/// Everything that can go wrong while loading a configuration, watching it
/// for changes, or running a route's backing program. Payloads are kept as
/// plain strings so that callers can surface them directly.
#[derive(Debug)]
pub enum BunBunError {
    /// An I/O failure, carrying the underlying error text.
    Io(String),
    /// The configuration document could not be parsed.
    Parse(String),
    /// The file watcher could not be set up.
    Watch(String),
    /// A route's backing program exited with a non-zero status; carries the
    /// program's standard-error text verbatim.
    CustomProgram(String),
    /// No candidate configuration location was readable or writable.
    NoValidConfigPath,
    /// The configuration file at an explicitly given path was not accessible.
    InvalidConfigPath(String, String),
    /// The configuration file exceeds the size threshold; carries the size.
    ConfigTooLarge(u64),
    /// The configuration file is exactly zero bytes long.
    ZeroByteConfig,
    /// A program's standard output was not a well-formed action object.
    JsonParse(String),
}

/// The decimal digit character for `d`.
pub open spec fn digit_char(d: nat) -> char {
    if d == 0 {
        '0'
    } else if d == 1 {
        '1'
    } else if d == 2 {
        '2'
    } else if d == 3 {
        '3'
    } else if d == 4 {
        '4'
    } else if d == 5 {
        '5'
    } else if d == 6 {
        '6'
    } else if d == 7 {
        '7'
    } else if d == 8 {
        '8'
    } else {
        '9'
    }
}

/// The decimal representation of `n`, most significant digit first.
pub open spec fn dec_digits(n: nat) -> Seq<char>
    decreases n,
{
    if n < 10 {
        seq![digit_char(n)]
    } else {
        dec_digits(n / 10).push(digit_char(n % 10))
    }
}

/// A single decimal digit as a string slice.
fn digit_str(d: u64) -> (r: &'static str)
    requires
        d < 10,
    ensures
        r@ == seq![digit_char(d as nat)],
{
    proof {
        reveal_strlit("0");
        reveal_strlit("1");
        reveal_strlit("2");
        reveal_strlit("3");
        reveal_strlit("4");
        reveal_strlit("5");
        reveal_strlit("6");
        reveal_strlit("7");
        reveal_strlit("8");
        reveal_strlit("9");
    }
    if d == 0 {
        "0"
    } else if d == 1 {
        "1"
    } else if d == 2 {
        "2"
    } else if d == 3 {
        "3"
    } else if d == 4 {
        "4"
    } else if d == 5 {
        "5"
    } else if d == 6 {
        "6"
    } else if d == 7 {
        "7"
    } else if d == 8 {
        "8"
    } else {
        "9"
    }
}

/// The human-readable message for an error value.
pub open spec fn spec_message(e: BunBunError) -> Seq<char> {
    match e {
        BunBunError::Io(msg) => msg@,
        BunBunError::Parse(msg) => msg@,
        BunBunError::Watch(msg) => msg@,
        BunBunError::CustomProgram(msg) => msg@,
        BunBunError::NoValidConfigPath => "No valid config path was found!"@,
        BunBunError::InvalidConfigPath(path, reason) => "Failed to access "@ + path@ + ": "@
            + reason@,
        BunBunError::ConfigTooLarge(size) => "The config file was too large ("@ + dec_digits(
            size as nat,
        ) + " bytes)! Pass in --large-config to bypass this check."@,
        BunBunError::ZeroByteConfig =>
        "The config provided reported a size of 0 bytes. Please check your config path!"@,
        BunBunError::JsonParse(msg) => msg@,
    }
}

impl BunBunError {
    /// The human-readable message for this error.
    pub fn message(&self) -> (r: String)
        ensures
            r@ == spec_message(*self),
    {
        match self {
            BunBunError::Io(msg) => msg.clone(),
            BunBunError::Parse(msg) => msg.clone(),
            BunBunError::Watch(msg) => msg.clone(),
            BunBunError::CustomProgram(msg) => msg.clone(),
            BunBunError::NoValidConfigPath => String::from_str("No valid config path was found!"),
            BunBunError::InvalidConfigPath(path, reason) => {
                let r = String::from_str("Failed to access ").concat(path.as_str()).concat(
                    ": ",
                ).concat(reason.as_str());
                proof {
                    assert(r@ =~= spec_message(*self));
                }
                r
            },
            BunBunError::ConfigTooLarge(size) => {
                let r = String::from_str("The config file was too large (").concat(
                    u64_to_string(*size).as_str(),
                ).concat(" bytes)! Pass in --large-config to bypass this check.");
                proof {
                    assert(r@ =~= spec_message(*self));
                }
                r
            },
            BunBunError::ZeroByteConfig => String::from_str(
                "The config provided reported a size of 0 bytes. Please check your config path!",
            ),
            BunBunError::JsonParse(msg) => msg.clone(),
        }
    }
}

/// Renders `n` in decimal.
pub fn u64_to_string(n: u64) -> (r: String)
    ensures
        r@ == dec_digits(n as nat),
    decreases n,
{
    if n < 10 {
        String::from_str(digit_str(n))
    } else {
        let prefix = u64_to_string(n / 10);
        let r = prefix.concat(digit_str(n % 10));
        proof {
            assert(r@ =~= dec_digits(n as nat));
        }
        r
    }
}

} // verus!
