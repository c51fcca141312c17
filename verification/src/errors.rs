//! Provider error taxonomy and retry classification.

use vstd::prelude::*;

use crate::text::{all_digits, chars_of, digits_value, parse_u64};

verus! {

/// Errors that can occur when talking to a model provider.
///
/// Authentication failures and unknown models are permanent; everything
/// else is transient and may be retried.
#[derive(Debug, Clone)]
pub enum ProviderError {
    /// The API returned a 429 rate limit response.
    RateLimited { retry_after_ms: u64 },
    /// Authentication failed (invalid API key).
    AuthenticationFailed(String),
    /// The requested model was not found.
    ModelNotFound(String),
    /// The API returned an error response.
    ApiError { status: u16, message: String },
    /// The request timed out, after the given number of seconds.
    Timeout(u64),
    /// A network error occurred.
    NetworkError(String),
}

impl ProviderError {
    /// Returns `true` if this error is permanent and should not be retried.
    pub fn is_permanent(&self) -> (r: bool)
        ensures
            r == ((*self) is AuthenticationFailed || (*self) is ModelNotFound),
    {
        match self {
            ProviderError::AuthenticationFailed(_) => true,
            ProviderError::ModelNotFound(_) => true,
            _ => false,
        }
    }

    /// Returns the retry-after delay in milliseconds, if applicable.
    pub fn retry_after_ms(&self) -> (r: Option<u64>)
        ensures
            r == match *self {
                ProviderError::RateLimited { retry_after_ms } => Some(retry_after_ms),
                _ => None::<u64>,
            },
    {
        match self {
            ProviderError::RateLimited { retry_after_ms } => Some(*retry_after_ms),
            _ => None,
        }
    }
}

/// The digit run of a rate-limit message, when `s` has the exact shape
/// `"rate limited, retry after <digits>ms"`.
pub open spec fn spec_retry_payload(s: Seq<char>) -> Option<Seq<char>> {
    let prefix = "rate limited, retry after "@;
    let suffix = "ms"@;
    if s.len() >= prefix.len() + suffix.len() && s.take(prefix.len() as int) == prefix && s.skip(
        s.len() - suffix.len(),
    ) == suffix {
        Some(s.subrange(prefix.len() as int, s.len() - suffix.len()))
    } else {
        None
    }
}

/// The retry-after hint carried by a message of the exact shape
/// `"rate limited, retry after <digits>ms"`, when the digits fit a `u64`.
pub open spec fn spec_parse_retry(s: Seq<char>) -> Option<u64> {
    match spec_retry_payload(s) {
        Some(d) => if d.len() > 0 && all_digits(d) && digits_value(d) <= u64::MAX {
            Some(digits_value(d) as u64)
        } else {
            None
        },
        None => None,
    }
}

/// Parses the retry-after hint out of a rate-limit error message of the
/// shape `"rate limited, retry after <ms>ms"`.
pub fn parse_retry_after_ms(err_msg: &str) -> (r: Option<u64>)
    ensures
        r == spec_parse_retry(err_msg@),
{
    let v = chars_of(err_msg);
    let prefix = chars_of("rate limited, retry after ");
    let suffix = chars_of("ms");
    if v.len() < prefix.len() || v.len() - prefix.len() < suffix.len() {
        return None;
    }
    let mut i: usize = 0;
    while i < prefix.len()
        invariant
            v@ == err_msg@,
            prefix@ == "rate limited, retry after "@,
            suffix@ == "ms"@,
            i <= prefix@.len(),
            prefix@.len() <= v@.len(),
            v@.len() - prefix@.len() >= suffix@.len(),
            forall|j: int| 0 <= j < i ==> v@[j] == prefix@[j],
        decreases prefix@.len() - i,
    {
        if v[i] != prefix[i] {
            proof {
                assert(v@.take(prefix@.len() as int)[i as int] != prefix@[i as int]);
            }
            return None;
        }
        i = i + 1;
    }
    proof {
        assert(v@.take(prefix@.len() as int) =~= prefix@);
    }
    let tail_start = v.len() - suffix.len();
    let mut m: usize = tail_start;
    while m < v.len()
        invariant
            v@ == err_msg@,
            prefix@ == "rate limited, retry after "@,
            suffix@ == "ms"@,
            v@.take(prefix@.len() as int) == prefix@,
            tail_start <= m <= v@.len(),
            prefix@.len() <= tail_start,
            tail_start == v@.len() - suffix@.len(),
            forall|j: int| tail_start <= j < m ==> v@[j] == suffix@[j - tail_start],
        decreases v@.len() - m,
    {
        if v[m] != suffix[m - tail_start] {
            proof {
                assert(v@.skip(tail_start as int)[m - tail_start] != suffix@[m - tail_start]);
            }
            return None;
        }
        m = m + 1;
    }
    proof {
        assert(v@.skip(tail_start as int) =~= suffix@);
    }
    let mut digits: Vec<char> = Vec::new();
    let mut j: usize = prefix.len();
    while j < tail_start
        invariant
            prefix@.len() <= j <= tail_start <= v@.len(),
            digits@ == v@.subrange(prefix@.len() as int, j as int),
        decreases tail_start - j,
    {
        digits.push(v[j]);
        j = j + 1;
    }
    proof {
        assert(v@.take(prefix@.len() as int) =~= prefix@);
        assert(v@.skip(tail_start as int) =~= suffix@);
        assert(digits@ =~= v@.subrange(prefix@.len() as int, tail_start as int));
        assert(spec_retry_payload(err_msg@) == Some(digits@));
    }
    parse_u64(&digits)
}

} // verus!
