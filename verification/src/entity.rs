//! Domain entities: assets, markets, and the denormalized record form
//! in which a market is kept inside the key-value store.

use vstd::prelude::*;

verus! {

/// Identifier of a market within the store namespace. Equality is exact
/// string equality; no normalization is performed by this layer.
pub type MarketId = String;

/// Identifier of an asset within the external asset repository.
pub type AssetId = String;

/// A tradable instrument. The full asset metadata is owned by an external
/// repository; this layer only ever reads the identifier, so that is what
/// the type carries here.
#[derive(Debug, PartialEq, Eq)]
pub struct Asset {
    pub id: AssetId,
}

/// A priced pair of assets plus its identifier. A `Market` is never
/// constructed with an unresolved base or quote: construction is the
/// resolution event, and the value is immutable thereafter.
#[derive(Debug, PartialEq, Eq)]
pub struct Market {
    pub id: MarketId,
    pub base: Asset,
    pub quote: Asset,
}

/// The denormalized, storage-ready form of a market: identifiers in place
/// of resolved assets. Exists only as a transient encode/decode artifact.
#[derive(Debug, PartialEq, Eq)]
pub struct MarketRecord {
    pub id: MarketId,
    pub base: AssetId,
    pub quote: AssetId,
}

/// Mathematical model of a `MarketRecord`: the three identifiers as
/// character sequences.
pub struct RecordView {
    pub id: Seq<char>,
    pub base: Seq<char>,
    pub quote: Seq<char>,
}

impl View for MarketRecord {
    type V = RecordView;

    open spec fn view(&self) -> RecordView {
        RecordView { id: self.id@, base: self.base@, quote: self.quote@ }
    }
}

impl DeepView for MarketRecord {
    type V = RecordView;

    open spec fn deep_view(&self) -> RecordView {
        self.view()
    }
}

impl Clone for MarketRecord {
    fn clone(&self) -> (r: Self)
        ensures
            r == *self,
    {
        MarketRecord { id: self.id.clone(), base: self.base.clone(), quote: self.quote.clone() }
    }
}

impl Clone for Asset {
    fn clone(&self) -> (r: Self)
        ensures
            r == *self,
    {
        Asset { id: self.id.clone() }
    }
}

impl Clone for Market {
    fn clone(&self) -> (r: Self)
        ensures
            r == *self,
    {
        Market { id: self.id.clone(), base: self.base.clone(), quote: self.quote.clone() }
    }
}

impl Market {
    pub fn new(id: MarketId, base: Asset, quote: Asset) -> (m: Market)
        ensures
            m == (Market { id, base, quote }),
    {
        Market { id, base, quote }
    }

    /// The record (wire) form of this market: its identifier and the
    /// identifiers of its two assets.
    pub open spec fn record_view(&self) -> RecordView {
        RecordView { id: self.id@, base: self.base.id@, quote: self.quote.id@ }
    }

    /// Denormalize this market into its storage-ready record form.
    pub fn to_record(&self) -> (r: MarketRecord)
        ensures
            r@ == self.record_view(),
    {
        MarketRecord { id: self.id.clone(), base: self.base.id.clone(), quote: self.quote.id.clone() }
    }
}

} // verus!
