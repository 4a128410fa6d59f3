//! The price tier of a request, which its input context decides.
use vstd::prelude::*;

verus! {

/// Input context (input, cache read and cache creation tokens) above which the higher
/// prices apply to every token type.
pub const TOKEN_THRESHOLD: i64 = 200000;

/// Which prices apply to a request.
#[derive(Debug, Clone, Copy, PartialEq, Eq, Structural)]
pub enum PricingTier {
    /// The base prices.
    Base,
    /// The prices for more than 200K tokens of input context.
    Above200k,
}

/// The tier of a request: above 200K exactly when its input context (input, cache read and
/// cache creation tokens together) exceeds 200K tokens; output tokens play no part.
pub fn pricing_tier(input_tokens: i64, cache_read_tokens: i64, cache_creation_tokens: i64) -> (r: PricingTier)
    requires
        i64::MIN <= input_tokens + cache_read_tokens <= i64::MAX,
        i64::MIN <= input_tokens + cache_read_tokens + cache_creation_tokens <= i64::MAX,
    ensures
        r == (if input_tokens + cache_read_tokens + cache_creation_tokens > TOKEN_THRESHOLD {
            PricingTier::Above200k
        } else {
            PricingTier::Base
        }),
{
    let total_input_context = input_tokens + cache_read_tokens + cache_creation_tokens;
    if total_input_context > TOKEN_THRESHOLD {
        PricingTier::Above200k
    } else {
        PricingTier::Base
    }
}

} // verus!
