//! Unified error taxonomy: store transport failures, decode failures,
//! asset-resolution failures, and pass-through application errors, each
//! carrying its causal chain as plain messages so the boundary can log
//! the full chain before converting to a user-facing representation.

use vstd::prelude::*;
use vstd::string::StringExecFns;

use crate::entity::{AssetId, MarketId};

verus! {

/// The one reportable error type of this layer. Variants that wrap an
/// error of a collaborating subsystem carry that error's causal chain as
/// a list of rendered messages, outermost cause first.
#[derive(Debug, PartialEq, Eq)]
pub enum DcaError {
    Generic(String),
    BadRequest(String),
    PriceNotAvailable(AssetId, AssetId),
    MarketNotFound(MarketId),
    RepositoryStoreFailure(String),
    StartupFailure(String, Vec<String>),
    Config(Vec<String>),
    InvalidLogPath(String),
    InvalidLogPath2(String, Vec<String>),
    JsonDeserializationFailure(String, String, Vec<String>),
    RedisPool(Vec<String>),
    Redis(String, Vec<String>),
    Reqwest(Vec<String>),
}

impl DcaError {
    /// The one-line description of this error, without its causes.
    pub open spec fn message_spec(&self) -> Seq<char> {
        match self {
            DcaError::Generic(s) => s@,
            DcaError::BadRequest(s) => "Bad Request: "@ + s@,
            DcaError::PriceNotAvailable(b, q) => "Price for market '"@ + b@ + "/"@ + q@
                + "' not available"@,
            DcaError::MarketNotFound(id) => "Market '"@ + id@ + "' not found"@,
            DcaError::RepositoryStoreFailure(s) => "Failed to store in Repository: "@ + s@,
            DcaError::StartupFailure(s, _) => s@,
            DcaError::Config(_) => "Failed to parse config"@,
            DcaError::InvalidLogPath(s) => "Invalid log file path: "@ + s@,
            DcaError::InvalidLogPath2(s, _) => "Invalid log file path: "@ + s@,
            DcaError::JsonDeserializationFailure(payload, target, _) =>
                "Failed to deserialized into "@ + target@ + ": "@ + payload@,
            DcaError::RedisPool(_) => "Failed to obtain Redis connection"@,
            DcaError::Redis(s, _) => s@,
            DcaError::Reqwest(_) => "Third-party API reqwest failed"@,
        }
    }

    /// The causal chain below this error's own message, outermost first.
    pub open spec fn sources_spec(&self) -> Seq<Seq<char>> {
        match self {
            DcaError::StartupFailure(_, c) => c.deep_view(),
            DcaError::Config(c) => c.deep_view(),
            DcaError::InvalidLogPath2(_, c) => c.deep_view(),
            DcaError::JsonDeserializationFailure(_, _, c) => c.deep_view(),
            DcaError::RedisPool(c) => c.deep_view(),
            DcaError::Redis(_, c) => c.deep_view(),
            DcaError::Reqwest(c) => c.deep_view(),
            _ => Seq::empty(),
        }
    }

    /// Build the one-line description of this error.
    pub fn message(&self) -> (r: String)
        ensures
            r@ == self.message_spec(),
    {
        match self {
            DcaError::Generic(s) => s.clone(),
            DcaError::BadRequest(s) => {
                let mut out = String::from_str("Bad Request: ");
                out.append(s.as_str());
                out
            },
            DcaError::PriceNotAvailable(b, q) => {
                let mut out = String::from_str("Price for market '");
                out.append(b.as_str());
                out.append("/");
                out.append(q.as_str());
                out.append("' not available");
                out
            },
            DcaError::MarketNotFound(id) => {
                let mut out = String::from_str("Market '");
                out.append(id.as_str());
                out.append("' not found");
                out
            },
            DcaError::RepositoryStoreFailure(s) => {
                let mut out = String::from_str("Failed to store in Repository: ");
                out.append(s.as_str());
                out
            },
            DcaError::StartupFailure(s, _) => s.clone(),
            DcaError::Config(_) => String::from_str("Failed to parse config"),
            DcaError::InvalidLogPath(s) => {
                let mut out = String::from_str("Invalid log file path: ");
                out.append(s.as_str());
                out
            },
            DcaError::InvalidLogPath2(s, _) => {
                let mut out = String::from_str("Invalid log file path: ");
                out.append(s.as_str());
                out
            },
            DcaError::JsonDeserializationFailure(payload, target, _) => {
                let mut out = String::from_str("Failed to deserialized into ");
                out.append(target.as_str());
                out.append(": ");
                out.append(payload.as_str());
                out
            },
            DcaError::RedisPool(_) => String::from_str("Failed to obtain Redis connection"),
            DcaError::Redis(s, _) => s.clone(),
            DcaError::Reqwest(_) => String::from_str("Third-party API reqwest failed"),
        }
    }

    /// Walk this error's causal chain, outermost cause first.
    pub fn iter_sources(&self) -> (it: ErrorIter)
        ensures
            it.remaining.deep_view() == self.sources_spec(),
    {
        let sources = match self {
            DcaError::StartupFailure(_, c) => clone_messages(c),
            DcaError::Config(c) => clone_messages(c),
            DcaError::InvalidLogPath2(_, c) => clone_messages(c),
            DcaError::JsonDeserializationFailure(_, _, c) => clone_messages(c),
            DcaError::RedisPool(c) => clone_messages(c),
            DcaError::Redis(_, c) => clone_messages(c),
            DcaError::Reqwest(c) => clone_messages(c),
            _ => {
                let empty: Vec<String> = Vec::new();
                proof {
                    assert(empty.deep_view() =~= Seq::<Seq<char>>::empty());
                }
                empty
            },
        };
        ErrorIter { remaining: sources }
    }

    /// The full rendering of this error: its message followed by each
    /// cause, in chain order, each introduced by a fixed separator.
    pub open spec fn describe_spec(&self) -> Seq<char> {
        self.message_spec() + chain_suffix(self.sources_spec())
    }

    /// Render this error with its full causal chain, as it is logged at
    /// the system boundary.
    pub fn describe(&self) -> (r: String)
        ensures
            r@ == self.describe_spec(),
    {
        let mut out = self.message();
        let mut it = self.iter_sources();
        let ghost all = self.sources_spec();
        let ghost mut done: int = 0;
        loop
            invariant
                all == self.sources_spec(),
                0 <= done <= all.len(),
                it.remaining.deep_view() =~= all.subrange(done, all.len() as int),
                out@ == self.message_spec() + chain_prefix(all, done),
            decreases all.len() - done,
        {
            let next = it.next();
            match next {
                None => {
                    proof {
                        assert(all.subrange(done, all.len() as int).len() == 0);
                        assert(done == all.len());
                        lemma_chain_prefix_full(all);
                        assert(out@ == self.message_spec() + chain_suffix(all));
                        assert(out@ == self.describe_spec());
                    }
                    return out;
                },
                Some(src) => {
                    out.append(" -- Caused by: ");
                    out.append(src.as_str());
                    proof {
                        reveal_strlit(" -- Caused by: ");
                        lemma_chain_prefix_snoc(all, done);
                        assert(out@ =~= self.message_spec() + chain_prefix(all, done + 1));
                    }
                    proof {
                        done = done + 1;
                    }
                },
            }
        }
    }

    /// The HTTP boundary's view of this error: a status code and a
    /// response body. Malformed-request errors are a client error with the
    /// error's message; a missing price is a not-found with the message;
    /// everything else is an opaque server error (the full causal chain is
    /// for the operator-facing log, never the client).
    pub fn response_parts(&self) -> (r: (u16, String))
        ensures
            match self {
                DcaError::BadRequest(_) => r.0 == 400 && r.1@ == self.message_spec(),
                DcaError::PriceNotAvailable(_, _) => r.0 == 404 && r.1@ == self.message_spec(),
                _ => r.0 == 500 && r.1@ == "Internal Server Error"@,
            },
    {
        match self {
            DcaError::BadRequest(_) => (400, self.message()),
            DcaError::PriceNotAvailable(_, _) => (404, self.message()),
            _ => (500, String::from_str("Internal Server Error")),
        }
    }
}

/// The rendered suffix for a causal chain: one separator-and-message pair
/// per cause, in order.
pub open spec fn chain_suffix(sources: Seq<Seq<char>>) -> Seq<char>
    decreases sources.len(),
{
    if sources.len() == 0 {
        Seq::empty()
    } else {
        " -- Caused by: "@ + sources[0] + chain_suffix(sources.drop_first())
    }
}

/// The rendered suffix for the first `n` causes of a chain.
pub open spec fn chain_prefix(sources: Seq<Seq<char>>, n: int) -> Seq<char> {
    chain_suffix(sources.subrange(0, n))
}

proof fn lemma_chain_prefix_snoc(sources: Seq<Seq<char>>, n: int)
    requires
        0 <= n < sources.len(),
    ensures
        chain_prefix(sources, n + 1) == chain_prefix(sources, n) + " -- Caused by: "@
            + sources[n],
{
    lemma_chain_suffix_snoc(sources.subrange(0, n), sources[n]);
    assert(sources.subrange(0, n + 1) =~= sources.subrange(0, n).push(sources[n]));
}

proof fn lemma_chain_suffix_snoc(sources: Seq<Seq<char>>, last: Seq<char>)
    ensures
        chain_suffix(sources.push(last)) == chain_suffix(sources) + " -- Caused by: "@ + last,
    decreases sources.len(),
{
    if sources.len() == 0 {
        assert(sources.push(last)[0] == last);
        assert(sources.push(last).drop_first() =~~= Seq::<Seq<char>>::empty());
        assert(chain_suffix(sources.push(last)) == " -- Caused by: "@ + last + chain_suffix(
            Seq::<Seq<char>>::empty(),
        ));
        assert(chain_suffix(sources.push(last)) =~= chain_suffix(sources) + " -- Caused by: "@
            + last);
    } else {
        assert(sources.push(last)[0] == sources[0]);
        assert(sources.push(last).drop_first() =~~= sources.drop_first().push(last));
        assert(chain_suffix(sources.push(last)) == " -- Caused by: "@ + sources[0]
            + chain_suffix(sources.drop_first().push(last)));
        lemma_chain_suffix_snoc(sources.drop_first(), last);
        assert(chain_suffix(sources.push(last)) =~= chain_suffix(sources) + " -- Caused by: "@
            + last);
    }
}

proof fn lemma_chain_prefix_full(sources: Seq<Seq<char>>)
    ensures
        chain_prefix(sources, sources.len() as int) == chain_suffix(sources),
{
    assert(sources.subrange(0, sources.len() as int) =~= sources);
}

/// Clone a list of cause messages.
fn clone_messages(v: &Vec<String>) -> (r: Vec<String>)
    ensures
        r.deep_view() == v.deep_view(),
{
    let mut out: Vec<String> = Vec::new();
    let mut i: usize = 0;
    while i < v.len()
        invariant
            i <= v.len(),
            out@.len() == i,
            forall|j: int| 0 <= j < i ==> out@[j]@ == v@[j]@,
        decreases v.len() - i,
    {
        out.push(v[i].clone());
        i += 1;
    }
    proof {
        assert(out.deep_view() =~~= v.deep_view());
    }
    out
}

/// Walks the causal chain of a `DcaError`, outermost cause first.
#[derive(Debug)]
pub struct ErrorIter {
    pub remaining: Vec<String>,
}

impl ErrorIter {
    /// The next cause message in the chain, or nothing when the chain is
    /// exhausted.
    pub fn next(&mut self) -> (r: Option<String>)
        ensures
            match r {
                Some(s) => old(self).remaining.deep_view().len() > 0 && s@ == old(
                    self,
                ).remaining.deep_view()[0] && final(self).remaining.deep_view() == old(
                    self,
                ).remaining.deep_view().drop_first(),
                None => old(self).remaining.deep_view().len() == 0 && *final(self) == *old(
                    self,
                ),
            },
    {
        if self.remaining.len() == 0 {
            None
        } else {
            let s = self.remaining.remove(0);
            proof {
                assert(self.remaining.deep_view() =~= old(self).remaining.deep_view().drop_first());
            }
            Some(s)
        }
    }
}

} // verus!
