//! The settings of a run, read from text with defaults.

use vstd::prelude::*;
use crate::text::chars_of;

verus! {

/// The requests in flight at once, unless set otherwise.
pub const DEFAULT_CONCURRENCY: u16 = 10;

/// The seconds allowed for one request, unless set otherwise.
pub const DEFAULT_TIMEOUT_SECS: u16 = 5;

/// The user agent that requests name, unless set otherwise.
pub open spec fn default_user_agent() -> Seq<char> {
    "reqwest-fetch"@
}

/// The settings of a run.
pub struct Config {
    /// The most requests in flight at once.
    pub concurrency_limit: u16,
    /// The time allowed for one request, in seconds.
    pub request_timeout_secs: u16,
    /// The most URLs to process, where that is bounded.
    pub url_limit: Option<u16>,
    /// The value of the user-agent header.
    pub user_agent: String,
}

/// Whether `c` is one of the digits `0` to `9`.
pub open spec fn is_digit(c: char) -> bool {
    48 <= c as u32 <= 57
}

/// The value of the digit `c`.
pub open spec fn digit_value(c: char) -> nat
    recommends
        is_digit(c),
{
    (c as u32 - 48) as nat
}

/// The number that the digits of `digits` write in decimal.
pub open spec fn number(digits: Seq<char>) -> nat
    decreases digits.len(),
{
    if digits.len() == 0 {
        0
    } else {
        number(digits.drop_last()) * 10 + digit_value(digits.last())
    }
}

/// `text` without a plus sign at its start.
pub open spec fn unsigned_part(text: Seq<char>) -> Seq<char> {
    if text.len() > 0 && text[0] == '+' {
        text.drop_first()
    } else {
        text
    }
}

/// The number that `text` writes, where it is an optional plus sign and
/// then one or more digits that give a number no larger than `u16::MAX`.
pub open spec fn parsed_u16(text: Seq<char>) -> Option<u16> {
    let digits = unsigned_part(text);
    if digits.len() > 0 && (forall|i: int| 0 <= i < digits.len() ==> is_digit(#[trigger] digits[i]))
        && number(digits) <= u16::MAX {
        Some(number(digits) as u16)
    } else {
        None
    }
}

/// The number that a setting gives: the one it writes, or `default` where
/// it is not set or writes none.
pub open spec fn setting_or(text: Option<Seq<char>>, default: u16) -> u16 {
    match text {
        Some(t) => match parsed_u16(t) {
            Some(v) => v,
            None => default,
        },
        None => default,
    }
}

proof fn number_grows(digits: Seq<char>, n: int)
    requires
        0 <= n <= digits.len(),
    ensures
        number(digits.subrange(0, n)) <= number(digits),
    decreases digits.len() - n,
{
    if n < digits.len() {
        number_grows(digits, n + 1);
        assert(digits.subrange(0, n + 1).drop_last() =~= digits.subrange(0, n));
    } else {
        assert(digits.subrange(0, n) =~= digits);
    }
}

/// Reads a decimal number from `text`.
pub fn parse_u16(text: &str) -> (value: Option<u16>)
    ensures
        value == parsed_u16(text@),
{
    let chars = chars_of(text);
    let start: usize = if chars.len() > 0 && chars[0] == '+' {
        1
    } else {
        0
    };
    if start == chars.len() {
        return None;
    }
    let ghost digits = unsigned_part(text@);
    assert(digits =~= text@.subrange(start as int, text@.len() as int));
    let mut value: u32 = 0;
    let mut i: usize = start;
    assert(digits.subrange(0, 0) =~= Seq::<char>::empty());
    while i < chars.len()
        invariant
            start <= i <= chars.len(),
            chars@ == text@,
            digits == unsigned_part(text@),
            digits == text@.subrange(start as int, text@.len() as int),
            forall|k: int| 0 <= k < i - start ==> is_digit(#[trigger] digits[k]),
            value == number(digits.subrange(0, i - start)),
            value <= u16::MAX,
        decreases chars.len() - i,
    {
        let c = chars[i] as u32;
        if c < 48 || c > 57 {
            assert(digits[i - start] == chars@[i as int]);
            assert(!is_digit(digits[i - start]));
            return None;
        }
        proof {
            assert(digits.subrange(0, i - start + 1).drop_last() =~= digits.subrange(0, i - start));
            assert(digits.subrange(0, i - start + 1).last() == chars@[i as int]);
        }
        value = value * 10 + (c - 48);
        if value > 65535 {
            proof {
                number_grows(digits, i - start + 1);
                assert(number(digits) > u16::MAX);
            }
            return None;
        }
        i = i + 1;
    }
    assert(digits.subrange(0, i - start) =~= digits);
    Some(value as u16)
}

/// The number that a setting gives, or `default` where the setting is
/// absent or is no number.
pub fn value_or(text: Option<&str>, default: u16) -> (value: u16)
    ensures
        value == setting_or(
            match text {
                Some(t) => Some(t@),
                None => None,
            },
            default,
        ),
{
    match text {
        Some(t) => match parse_u16(t) {
            Some(v) => v,
            None => default,
        },
        None => default,
    }
}

/// The text of a setting, or `default` where the setting is absent.
pub fn text_or(text: Option<String>, default: &str) -> (value: String)
    ensures
        value@ == match text {
            Some(t) => t@,
            None => default@,
        },
{
    match text {
        Some(t) => t,
        None => String::from_str(default),
    }
}

impl Config {
    /// The settings that hold where nothing is set.
    pub fn defaults() -> (config: Config)
        ensures
            config.concurrency_limit == DEFAULT_CONCURRENCY,
            config.request_timeout_secs == DEFAULT_TIMEOUT_SECS,
            config.url_limit is None,
            config.user_agent@ == default_user_agent(),
    {
        Config {
            concurrency_limit: DEFAULT_CONCURRENCY,
            request_timeout_secs: DEFAULT_TIMEOUT_SECS,
            url_limit: None,
            user_agent: String::from_str("reqwest-fetch"),
        }
    }

    /// The settings that the given texts make. A text that is absent or is
    /// no number leaves its setting at the default.
    pub fn from_values(
        concurrency: Option<&str>,
        timeout_secs: Option<&str>,
        url_limit: Option<&str>,
        user_agent: Option<String>,
    ) -> (config: Config)
        ensures
            config.concurrency_limit == setting_or(
                match concurrency {
                    Some(t) => Some(t@),
                    None => None,
                },
                DEFAULT_CONCURRENCY,
            ),
            config.request_timeout_secs == setting_or(
                match timeout_secs {
                    Some(t) => Some(t@),
                    None => None,
                },
                DEFAULT_TIMEOUT_SECS,
            ),
            config.url_limit == match url_limit {
                Some(t) => parsed_u16(t@),
                None => None,
            },
            config.user_agent@ == match user_agent {
                Some(t) => t@,
                None => default_user_agent(),
            },
    {
        Config {
            concurrency_limit: value_or(concurrency, DEFAULT_CONCURRENCY),
            request_timeout_secs: value_or(timeout_secs, DEFAULT_TIMEOUT_SECS),
            url_limit: match url_limit {
                Some(t) => parse_u16(t),
                None => None,
            },
            user_agent: text_or(user_agent, "reqwest-fetch"),
        }
    }
}

} // verus!
