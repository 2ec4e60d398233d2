//! Plain data carried across the HTTP boundary. The boundary itself
//! (routing, headers, serialization) lives outside this library; these
//! are the value types it exchanges with it, plus the fixed cache policy
//! constant for the asset listings.

use vstd::prelude::*;

verus! {

/// How long, in seconds, a response listing assets may be cached.
pub const ASSETS_CACHE_MAX_AGE_SECS: u64 = 300;

/// Query parameters of a price request: the quote asset the price is
/// asked in.
pub struct GetPriceQuery {
    pub quote: String,
}

/// Response body of a portfolio import: the identifier assigned to the
/// imported portfolio and when it expires.
pub struct ImportPortfolioResponse {
    pub id: String,
    pub expires_at: String,
}

} // verus!
