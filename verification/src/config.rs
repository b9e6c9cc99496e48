use vstd::prelude::*;

verus! {

use crate::strutil::chars_of;

/// The configuration the process starts with: where the remote service lives,
/// the token used to authenticate against it, and which project receives the
/// issues.
pub struct Config {
    pub host: String,
    pub api_token: String,
    pub project_id: u64,
}

/// Why loading the configuration failed: one of the three required values is
/// absent, or the project identifier is not a number.
#[derive(Debug, Clone, Copy, PartialEq, Eq, Structural)]
pub enum ConfigError {
    MissingHost,
    MissingApiToken,
    MissingProjectId,
    InvalidProjectId,
}

/// A decimal digit.
pub open spec fn is_digit(c: char) -> bool {
    '0' as u32 <= c as u32 && c as u32 <= '9' as u32
}

/// The numeric value of a decimal digit.
pub open spec fn digit_val(c: char) -> int {
    c as u32 - '0' as u32
}

pub open spec fn all_digits(s: Seq<char>) -> bool {
    forall|i: int| 0 <= i < s.len() ==> is_digit(#[trigger] s[i])
}

/// The value of a sequence of decimal digits, most significant first.
pub open spec fn digits_val(s: Seq<char>) -> int
    decreases s.len(),
{
    if s.len() == 0 {
        0
    } else {
        digits_val(s.drop_last()) * 10 + digit_val(s.last())
    }
}

/// What parsing a decimal number accepts: an optional leading plus sign, then
/// one or more digits, and a value that fits in 64 bits.
pub open spec fn parse_u64_spec(s: Seq<char>) -> Option<u64> {
    let digits = if s.len() > 0 && s[0] == '+' {
        s.subrange(1, s.len() as int)
    } else {
        s
    };
    if digits.len() > 0 && all_digits(digits) && digits_val(digits) <= u64::MAX {
        Some(digits_val(digits) as u64)
    } else {
        None
    }
}

proof fn lemma_digits_val_nonneg(s: Seq<char>)
    requires
        all_digits(s),
    ensures
        digits_val(s) >= 0,
    decreases s.len(),
{
    if s.len() > 0 {
        assert forall|i: int| 0 <= i < s.drop_last().len() implies is_digit(
            #[trigger] s.drop_last()[i],
        ) by {
            assert(s.drop_last()[i] == s[i]);
        }
        lemma_digits_val_nonneg(s.drop_last());
    }
}

/// Reading more digits never shrinks the value.
proof fn lemma_digits_val_mono(s: Seq<char>, i: int, j: int)
    requires
        0 <= i <= j <= s.len(),
        all_digits(s),
    ensures
        digits_val(s.subrange(0, j)) >= digits_val(s.subrange(0, i)),
    decreases j - i,
{
    if i < j {
        lemma_digits_val_mono(s, i, j - 1);
        let t = s.subrange(0, j);
        assert(t.drop_last() =~= s.subrange(0, j - 1));
        assert forall|k: int| 0 <= k < s.subrange(0, j - 1).len() implies is_digit(
            #[trigger] s.subrange(0, j - 1)[k],
        ) by {
            assert(s.subrange(0, j - 1)[k] == s[k]);
        }
        lemma_digits_val_nonneg(s.subrange(0, j - 1));
        assert(is_digit(t.last()));
    }
}

/// Parses an unsigned decimal number the way the standard library does: an
/// optional leading plus sign, then one or more digits, rejecting anything
/// else and any value that does not fit in 64 bits.
pub fn parse_u64(s: &str) -> (r: Option<u64>)
    ensures
        r == parse_u64_spec(s@),
{
    let chars = chars_of(s);
    let n = chars.len();
    let start: usize = if n > 0 && chars[0] == '+' {
        1
    } else {
        0
    };
    let ghost digits: Seq<char> = s@.subrange(start as int, n as int);
    proof {
        if !(s@.len() > 0 && s@[0] == '+') {
            assert(digits =~= s@);
        }
    }
    if start >= n {
        return None;
    }
    let mut value: u64 = 0;
    let mut i: usize = start;
    while i < n
        invariant
            start <= i <= n,
            n == s@.len(),
            chars@ == s@,
            start == if s@.len() > 0 && s@[0] == '+' { 1int } else { 0int },
            digits == s@.subrange(start as int, n as int),
            all_digits(s@.subrange(start as int, i as int)),
            value == digits_val(s@.subrange(start as int, i as int)),
        decreases n - i,
    {
        let c = chars[i];
        if !('0' as u32 <= c as u32 && c as u32 <= '9' as u32) {
            proof {
                assert(digits[i - start] == s@[i as int]);
                assert(!is_digit(digits[i - start]));
            }
            return None;
        }
        let d: u64 = (c as u32 - '0' as u32) as u64;
        let ghost prefix = s@.subrange(start as int, i as int);
        let ghost extended = s@.subrange(start as int, i as int + 1);
        proof {
            assert(extended.drop_last() =~= prefix);
            assert(extended.last() == s@[i as int]);
            assert(digits_val(extended) == value * 10 + d);
            assert forall|k: int| 0 <= k < extended.len() implies is_digit(
                #[trigger] extended[k],
            ) by {
                assert(extended[k] == s@[start + k]);
            }
        }
        let next = match value.checked_mul(10) {
            Some(p) => p.checked_add(d),
            None => None,
        };
        match next {
            Some(v) => {
                value = v;
            },
            None => {
                proof {
                    assert(s@.subrange(0int, n as int) =~= s@);
                    assert(value * 10 + d > u64::MAX);
                    assert(digits_val(extended) > u64::MAX);
                    if all_digits(digits) {
                        lemma_digits_val_mono(digits, i - start + 1, n - start);
                        assert(digits.subrange(0, i - start + 1) =~= extended);
                        assert(digits.subrange(0, n - start as int) =~= digits);
                        assert(digits_val(digits) > u64::MAX);
                    }
                }
                return None;
            },
        }
        i = i + 1;
    }
    proof {
        assert(s@.subrange(start as int, n as int) =~= digits);
        assert(digits_val(digits) <= u64::MAX);
    }
    Some(value)
}

/// Builds the configuration from the three environment values, in the order
/// the process reads them: the missing one named first, then the project
/// identifier parsed as a number.
pub fn load_config(host: Option<String>, api_token: Option<String>, project_id: Option<String>)
    -> (r: Result<Config, ConfigError>)
    ensures
        host is None ==> r == Err::<Config, ConfigError>(ConfigError::MissingHost),
        host is Some && api_token is None ==> r == Err::<Config, ConfigError>(
            ConfigError::MissingApiToken,
        ),
        host is Some && api_token is Some && project_id is None ==> r == Err::<Config, ConfigError>(
            ConfigError::MissingProjectId,
        ),
        host is Some && api_token is Some && project_id is Some ==> match parse_u64_spec(
            project_id->0@,
        ) {
            Some(n) => r matches Ok(c) && c.host@ == host->0@ && c.api_token@ == api_token->0@
                && c.project_id == n,
            None => r == Err::<Config, ConfigError>(ConfigError::InvalidProjectId),
        },
{
    let host = match host {
        Some(h) => h,
        None => {
            return Err(ConfigError::MissingHost);
        },
    };
    let api_token = match api_token {
        Some(t) => t,
        None => {
            return Err(ConfigError::MissingApiToken);
        },
    };
    let project_id = match project_id {
        Some(p) => p,
        None => {
            return Err(ConfigError::MissingProjectId);
        },
    };
    match parse_u64(project_id.as_str()) {
        Some(n) => Ok(Config { host, api_token, project_id: n }),
        None => Err(ConfigError::InvalidProjectId),
    }
}

} // verus!
