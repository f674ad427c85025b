//! What a regional server needs to boot: its region, its port and the URL of
//! the NATS server, as read from the environment.
use vstd::prelude::*;
use crate::text;

verus! {

/// Why the configuration could not be built.
#[derive(Debug, Clone, PartialEq, Eq)]
pub enum ConfigError {
    /// A required variable is absent; it holds the variable's name.
    MissingVar(String),
    /// The port text is not a port number; it holds that text.
    InvalidPort(String),
}

/// Everything the server needs to boot.
#[derive(Debug, Clone)]
pub struct Config {
    /// This server's region, such as `us-east`; part of NATS subjects and of
    /// presence records.
    pub region_id: String,
    /// The port that the HTTP and WebSocket server binds.
    pub port: u16,
    /// The URL of the NATS server, such as `nats://nats:4222`.
    pub nats_url: String,
}

/// The text of a configuration error.
pub open spec fn error_text(e: ConfigError) -> Seq<char> {
    match e {
        ConfigError::MissingVar(name) => "Missing required env var: '"@ + name@ + "'"@,
        ConfigError::InvalidPort(text) => "'"@ + text@ + "' is not a valid port number"@,
    }
}

/// `c` is an ASCII decimal digit.
pub open spec fn is_digit(c: char) -> bool {
    '0' <= c <= '9'
}

/// The number that a string of decimal digits denotes.
pub open spec fn digits_value(s: Seq<char>) -> nat
    decreases s.len(),
{
    if s.len() == 0 {
        0
    } else {
        digits_value(s.drop_last()) * 10 + (s.last() as nat - '0' as nat) as nat
    }
}

/// `s` without a leading `+`, if it has one.
pub open spec fn after_plus(s: Seq<char>) -> Seq<char> {
    if s.len() > 0 && s[0] == '+' {
        s.drop_first()
    } else {
        s
    }
}

/// Every character of `d` is a decimal digit.
pub open spec fn all_digits(d: Seq<char>) -> bool {
    forall|i: int| 0 <= i < d.len() ==> is_digit(#[trigger] d[i])
}

/// The `u16` that a text denotes, as `str::parse::<u16>` reads it: an optional
/// `+`, then one or more decimal digits whose value is at most 65535.
pub open spec fn u16_of_text(s: Seq<char>) -> Option<u16> {
    let d = after_plus(s);
    if d.len() > 0 && all_digits(d) && digits_value(d) <= 65535 {
        Some(digits_value(d) as u16)
    } else {
        None
    }
}

/// The default port text.
pub open spec fn default_port_text() -> Seq<char> {
    "3000"@
}

/// The default NATS URL.
pub open spec fn default_nats_url() -> Seq<char> {
    "nats://localhost:4222"@
}

/// A longer string of digits never denotes less than its prefix.
proof fn lemma_digits_value_prefix(s: Seq<char>, i: int)
    requires
        0 <= i <= s.len(),
        forall|j: int| 0 <= j < s.len() ==> is_digit(#[trigger] s[j]),
    ensures
        digits_value(s.take(i)) <= digits_value(s),
    decreases s.len(),
{
    if i < s.len() {
        let init = s.drop_last();
        assert(init.take(i) =~= s.take(i));
        lemma_digits_value_prefix(init, i);
    } else {
        assert(s.take(i) =~= s);
    }
}

/// Reads a port number as `str::parse::<u16>` does.
pub fn parse_port(s: &str) -> (r: Option<u16>)
    ensures
        r == u16_of_text(s@),
{
    let v = text::chars_of(s);
    let start: usize = if v.len() > 0 && v[0] == '+' {
        1
    } else {
        0
    };
    let ghost digits = after_plus(v@);
    assert(digits =~= v@.skip(start as int));
    if start == v.len() {
        return None;
    }
    let mut value: u32 = 0;
    let mut i = start;
    while i < v.len()
        invariant
            start <= i <= v.len(),
            digits =~= v@.skip(start as int),
            digits == after_plus(v@),
            v@ == s@,
            value <= 65535,
            forall|j: int| start <= j < i ==> is_digit(#[trigger] v@[j]),
            value == digits_value(v@.subrange(start as int, i as int)),
        decreases v.len() - i,
    {
        let c = v[i];
        if !('0' <= c && c <= '9') {
            assert(!is_digit(digits[i - start]));
            assert(!all_digits(digits));
            assert(u16_of_text(v@) == None::<u16>);
            return None;
        }
        let d = (c as u32) - ('0' as u32);
        assert(v@.subrange(start as int, i + 1).drop_last() =~= v@.subrange(start as int, i as int));
        let next = value * 10 + d;
        if next > 65535 {
            proof {
                assert(digits_value(v@.subrange(start as int, i + 1)) == next);
                if all_digits(digits) {
                    assert(digits.take(i + 1 - start) =~= v@.subrange(start as int, i + 1));
                    lemma_digits_value_prefix(digits, i + 1 - start);
                }
                assert(u16_of_text(v@) == None::<u16>);
            }
            return None;
        }
        value = next;
        i = i + 1;
    }
    assert(v@.subrange(start as int, v.len() as int) =~= digits);
    assert forall|j: int| 0 <= j < digits.len() implies is_digit(#[trigger] digits[j]) by {
        assert(digits[j] == v@[start + j]);
    }
    assert(all_digits(digits));
    Some(value as u16)
}

impl ConfigError {
    /// The error's text: `Missing required env var: '<name>'` or
    /// `'<text>' is not a valid port number`.
    pub fn message(&self) -> (m: String)
        ensures
            m@ == error_text(*self),
    {
        let r = match self {
            ConfigError::MissingVar(name) => {
                let front = text::chars_of("Missing required env var: '");
                let back = text::chars_of("'");
                text::concat_chars(&text::concat_chars(&front, &text::chars_of(name.as_str())), &back)
            },
            ConfigError::InvalidPort(port_text) => {
                let front = text::chars_of("'");
                let back = text::chars_of("' is not a valid port number");
                text::concat_chars(
                    &text::concat_chars(&front, &text::chars_of(port_text.as_str())),
                    &back,
                )
            },
        };
        text::string_of(&r)
    }
}

impl Config {
    /// Builds the configuration from the values of `REGION_ID`, `PORT` and
    /// `NATS_URL` (`None` for an absent variable): the region is required,
    /// the port defaults to `3000` and must be a valid port number, and the
    /// NATS URL defaults to `nats://localhost:4222`.
    pub fn from_values(region_id: Option<String>, port: Option<String>, nats_url: Option<String>) -> (r:
        Result<Config, ConfigError>)
        ensures
            region_id is None ==> (r matches Err(ConfigError::MissingVar(name)) && name@
                == "REGION_ID"@),
            region_id is Some ==> {
                let port_text = match port {
                    Some(p) => p@,
                    None => default_port_text(),
                };
                match u16_of_text(port_text) {
                    None => (r matches Err(ConfigError::InvalidPort(t)) && t@ == port_text),
                    Some(n) => (r matches Ok(cfg) && cfg.region_id@ == region_id->0@ && cfg.port
                        == n && cfg.nats_url@ == match nats_url {
                        Some(u) => u@,
                        None => default_nats_url(),
                    }),
                }
            },
    {
        let region_id = match region_id {
            Some(id) => id,
            None => {
                return Err(
                    ConfigError::MissingVar(text::string_of(&text::chars_of("REGION_ID"))),
                );
            },
        };
        let port_text = match port {
            Some(p) => p,
            None => text::string_of(&text::chars_of("3000")),
        };
        let port = match parse_port(port_text.as_str()) {
            Some(n) => n,
            None => {
                return Err(ConfigError::InvalidPort(port_text));
            },
        };
        let nats_url = match nats_url {
            Some(u) => u,
            None => text::string_of(&text::chars_of("nats://localhost:4222")),
        };
        Ok(Config { region_id, port, nats_url })
    }
}

} // verus!
