//! Configuration resolution: every setting is optional with a default, and
//! a numeric setting whose raw text is not a number fails startup with an
//! error naming the offending setting instead of silently falling back.

use vstd::prelude::*;
use vstd::string::StrSliceExecFns;
use vstd::string::StringExecFns;

verus! {

/// Events kept by the broadcast hub when nothing is configured.
pub const DEFAULT_BUFFER_SIZE: usize = 10;

/// Listening port when nothing is configured.
pub const DEFAULT_SERVER_PORT: u16 = 3000;

/// The numeric settings the service reads at startup.
#[derive(Debug)]
pub enum ConfigSetting {
    /// The broadcast hub's buffer bound.
    BufferSize,
    /// The gateway's listening port.
    ServerPort,
}

/// A setting whose raw text could not be accepted; fatal at startup.
#[derive(Debug)]
pub enum ConfigError {
    Invalid(ConfigSetting),
}

/// Decimal digit.
pub open spec fn is_digit(c: char) -> bool {
    48 <= c as int && c as int <= 57
}

/// Non-empty and all digits: the texts accepted as numbers.
pub open spec fn valid_number(s: Seq<char>) -> bool {
    s.len() > 0 && forall|i: int| 0 <= i < s.len() ==> is_digit(#[trigger] s[i])
}

/// The value a digit string denotes.
pub open spec fn dec_value(s: Seq<char>) -> nat
    decreases s.len(),
{
    if s.len() == 0 {
        0
    } else {
        dec_value(s.drop_last()) * 10 + (s.last() as int - 48) as nat
    }
}

proof fn lemma_dec_prefix_monotone(s: Seq<char>, i: int)
    requires
        0 <= i <= s.len(),
    ensures
        dec_value(s.take(i)) <= dec_value(s),
    decreases s.len() - i,
{
    if i < s.len() {
        assert(s.take(i + 1).drop_last() =~= s.take(i));
        assert(s.take(i + 1).last() == s[i]);
        lemma_dec_prefix_monotone(s, i + 1);
    } else {
        assert(s.take(i) =~= s);
    }
}

/// Reads a decimal number.  Accepts exactly the non-empty all-digit texts
/// whose value fits in a `u64`.
pub fn parse_u64(s: &str) -> (r: Option<u64>)
    ensures
        r is Some <==> valid_number(s@) && dec_value(s@) <= u64::MAX,
        r matches Some(n) ==> n as nat == dec_value(s@),
{
    let len = s.unicode_len();
    if len == 0 {
        return None;
    }
    let mut n: u128 = 0;
    let mut i: usize = 0;
    while i < len
        invariant
            0 < len == s@.len(),
            i <= len,
            forall|j: int| 0 <= j < i ==> is_digit(#[trigger] s@[j]),
            n as nat == dec_value(s@.take(i as int)),
            n <= u64::MAX,
        decreases len - i,
    {
        let c = s.get_char(i);
        let cu = c as u32;
        if cu < 48 || cu > 57 {
            return None;
        }
        let d = (cu - 48) as u128;
        proof {
            assert(s@.take(i + 1).drop_last() =~= s@.take(i as int));
            assert(s@.take(i + 1).last() == s@[i as int]);
        }
        n = n * 10 + d;
        i = i + 1;
        if n > u64::MAX as u128 {
            proof {
                lemma_dec_prefix_monotone(s@, i as int);
            }
            return None;
        }
    }
    proof {
        assert(s@.take(len as int) =~= s@);
    }
    Some(n as u64)
}

/// The buffer bound the hub is to be built with: the default when nothing
/// is set, else the raw text read as a number.  Zero is refused along with
/// non-numbers: a hub must retain at least one event.
pub fn resolve_buffer_size(raw: Option<&str>) -> (r: Result<usize, ConfigError>)
    ensures
        match raw {
            None => r matches Ok(n) && n == DEFAULT_BUFFER_SIZE,
            Some(s) => {
                let ok = valid_number(s@) && 1 <= dec_value(s@) <= usize::MAX;
                &&& ok ==> (r matches Ok(n) && n as nat == dec_value(s@))
                &&& !ok ==> r matches Err(ConfigError::Invalid(ConfigSetting::BufferSize))
            },
        },
{
    match raw {
        None => Ok(DEFAULT_BUFFER_SIZE),
        Some(s) => {
            match parse_u64(s) {
                Some(n) => {
                    if n >= 1 && n <= usize::MAX as u64 {
                        Ok(n as usize)
                    } else {
                        Err(ConfigError::Invalid(ConfigSetting::BufferSize))
                    }
                },
                None => Err(ConfigError::Invalid(ConfigSetting::BufferSize)),
            }
        },
    }
}

/// The listening port: the default when nothing is set, else the raw text
/// read as a number that fits a `u16`.
pub fn resolve_server_port(raw: Option<&str>) -> (r: Result<u16, ConfigError>)
    ensures
        match raw {
            None => r matches Ok(n) && n == DEFAULT_SERVER_PORT,
            Some(s) => {
                let ok = valid_number(s@) && dec_value(s@) <= u16::MAX;
                &&& ok ==> (r matches Ok(n) && n as nat == dec_value(s@))
                &&& !ok ==> r matches Err(ConfigError::Invalid(ConfigSetting::ServerPort))
            },
        },
{
    match raw {
        None => Ok(DEFAULT_SERVER_PORT),
        Some(s) => {
            match parse_u64(s) {
                Some(n) => {
                    if n <= u16::MAX as u64 {
                        Ok(n as u16)
                    } else {
                        Err(ConfigError::Invalid(ConfigSetting::ServerPort))
                    }
                },
                None => Err(ConfigError::Invalid(ConfigSetting::ServerPort)),
            }
        },
    }
}

/// The store address: the raw text when set, else the local loopback
/// default.
pub fn resolve_store_url(raw: Option<&str>) -> (r: String)
    ensures
        match raw {
            Some(s) => r@ == s@,
            None => r@ == "redis://127.0.0.1/"@,
        },
{
    match raw {
        Some(s) => s.to_owned(),
        None => String::from_str("redis://127.0.0.1/"),
    }
}

impl ConfigSetting {
    /// The environment name of the setting.
    pub fn name(&self) -> (r: String)
        ensures
            self is BufferSize ==> r@ == "BROADCAST_BUFFER_SIZE"@,
            self is ServerPort ==> r@ == "SERVER_PORT"@,
    {
        match self {
            ConfigSetting::BufferSize => String::from_str("BROADCAST_BUFFER_SIZE"),
            ConfigSetting::ServerPort => String::from_str("SERVER_PORT"),
        }
    }
}

impl ConfigError {
    /// A message naming the offending setting.
    pub fn message(&self) -> (r: String)
        ensures
            match self {
                ConfigError::Invalid(s) => (s is BufferSize ==> r@
                    == "BROADCAST_BUFFER_SIZE"@ + " doit être un nombre"@) && (s is ServerPort
                    ==> r@ == "SERVER_PORT"@ + " doit être un nombre"@),
            },
    {
        match self {
            ConfigError::Invalid(s) => s.name().concat(" doit être un nombre"),
        }
    }
}

} // verus!
