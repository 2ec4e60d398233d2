//! Market resolver and batch resolution pipeline. Resolution joins a
//! denormalized record with the outcomes of its two asset lookups (base
//! and quote, issued concurrently by the caller) into a fully hydrated
//! market, a documented absence, or a propagated lookup failure. The
//! batch pipeline applies the same step across many records and keeps
//! only the resolved subset: it never propagates a per-record failure.

use vstd::prelude::*;
use vstd::string::StringExecFns;

use crate::entity::{Asset, Market, MarketRecord};
use crate::error::DcaError;

verus! {

/// The outcome of one asset lookup, as the asset repository reports it:
/// the asset, a documented absence, or a transport failure.
pub type AssetLookup = Result<Option<Asset>, DcaError>;

/// The decision of a single resolution, given the record and the two
/// lookup outcomes: a lookup failure is propagated (base first, then
/// quote); a missing asset makes the market unresolvable, which is an
/// absence and not an error; two present assets hydrate the market.
pub open spec fn resolve_spec(record: MarketRecord, base: AssetLookup, quote: AssetLookup)
    -> Result<Option<Market>, DcaError> {
    match base {
        Err(e) => Err(e),
        Ok(b) => match quote {
            Err(e) => Err(e),
            Ok(q) => match (b, q) {
                (Some(b), Some(q)) => Ok(Some(Market { id: record.id, base: b, quote: q })),
                _ => Ok(None),
            },
        },
    }
}

/// Resolve one record against the outcomes of its two asset lookups.
/// Both lookups are issued before this decision is taken — the fan-out
/// of two is a domain constant — so this function receives both
/// outcomes at once and no ordering between the lookups is assumed.
pub fn resolve_market(record: MarketRecord, base: AssetLookup, quote: AssetLookup) -> (r:
    Result<Option<Market>, DcaError>)
    ensures
        r == resolve_spec(record, base, quote),
        base is Err || quote is Err <==> r is Err,
        base is Ok && quote is Ok && (base matches Ok(None)) ==> r == Ok::<
            Option<Market>,
            DcaError,
        >(None),
        base is Ok && quote is Ok && (quote matches Ok(None)) ==> r == Ok::<
            Option<Market>,
            DcaError,
        >(None),
        (base is Ok && base->Ok_0 is Some && quote is Ok && quote->Ok_0 is Some) ==> r == Ok::<
            Option<Market>,
            DcaError,
        >(
            Some(
                Market {
                    id: record.id,
                    base: base->Ok_0->Some_0,
                    quote: quote->Ok_0->Some_0,
                },
            ),
        ),
{
    let base = match base {
        Err(e) => {
            return Err(e);
        },
        Ok(b) => b,
    };
    let quote = match quote {
        Err(e) => {
            return Err(e);
        },
        Ok(q) => q,
    };
    match (base, quote) {
        (Some(b), Some(q)) => Ok(Some(Market::new(record.id, b, q))),
        _ => Ok(None),
    }
}

/// The warning logged when a market cannot be resolved because one of
/// its referenced assets is absent: it names the market and the missing
/// asset id. `base_missing` says which side was absent.
pub open spec fn missing_asset_note_spec(record: MarketRecord, base_missing: bool) -> Seq<
    char,
> {
    if base_missing {
        "market '"@ + record.id@ + "': base asset not found: "@ + record.base@
    } else {
        "market '"@ + record.id@ + "': quote asset not found: "@ + record.quote@
    }
}

/// Render the warning for a resolution miss, identifying the market id
/// and the missing asset id, for the caller to hand to its log sink.
pub fn missing_asset_note(record: &MarketRecord, base_missing: bool) -> (r: String)
    ensures
        r@ == missing_asset_note_spec(*record, base_missing),
{
    let mut out = String::from_str("market '");
    out.append(record.id.as_str());
    if base_missing {
        out.append("': base asset not found: ");
        out.append(record.base.as_str());
    } else {
        out.append("': quote asset not found: ");
        out.append(record.quote.as_str());
    }
    out
}

/// What the batch pipeline keeps: the resolved market of each record
/// whose resolution succeeded with a present market, in input order;
/// records whose resolution failed or missed are dropped.
pub open spec fn batch_spec(records: Seq<MarketRecord>, lookups: Seq<(AssetLookup, AssetLookup)>)
    -> Seq<Market>
    decreases records.len(),
{
    if records.len() == 0 || lookups.len() == 0 {
        Seq::empty()
    } else {
        let rest = batch_spec(records.drop_first(), lookups.drop_first());
        match resolve_spec(records[0], lookups[0].0, lookups[0].1) {
            Ok(Some(m)) => seq![m] + rest,
            _ => rest,
        }
    }
}

/// Resolve a batch of records, each against the outcomes of its own two
/// asset lookups. A record whose resolution misses is dropped (the drop
/// is the caller's to log, via `missing_asset_note`); a record whose
/// resolution fails is dropped too: the pipeline never propagates a
/// per-record failure, so the caller always receives the resolvable
/// subset, possibly empty.
pub fn resolve_batch(records: Vec<MarketRecord>, lookups: Vec<(AssetLookup, AssetLookup)>) -> (r:
    Vec<Market>)
    requires
        records@.len() == lookups@.len(),
    ensures
        r@ == batch_spec(records@, lookups@),
{
    let mut records = records;
    let mut lookups = lookups;
    let mut out: Vec<Market> = Vec::new();
    let ghost orig_records = records@;
    let ghost orig_lookups = lookups@;
    let total = records.len();
    proof {
        assert(orig_records.len() == total);
    }
    let mut i: usize = 0;
    while records.len() > 0
        invariant
            records@.len() == lookups@.len(),
            i + records@.len() == orig_records.len(),
            orig_records.len() <= usize::MAX,
            orig_records.len() == orig_lookups.len(),
            records@ == orig_records.subrange(i as int, orig_records.len() as int),
            lookups@ == orig_lookups.subrange(i as int, orig_lookups.len() as int),
            out@ + batch_spec(records@, lookups@) == batch_spec(orig_records, orig_lookups),
        decreases records@.len(),
    {
        let ghost pre_records = records@;
        let ghost pre_lookups = lookups@;
        let record = records.remove(0);
        let lookup = lookups.remove(0);
        proof {
            assert(records@ =~= pre_records.drop_first());
            assert(lookups@ =~= pre_lookups.drop_first());
        }
        match resolve_market(record, lookup.0, lookup.1) {
            Ok(Some(m)) => {
                out.push(m);
                proof {
                    assert(out@ + batch_spec(records@, lookups@) =~= batch_spec(
                        orig_records,
                        orig_lookups,
                    ));
                }
            },
            _ => {
                proof {
                    assert(out@ + batch_spec(records@, lookups@) =~= batch_spec(
                        orig_records,
                        orig_lookups,
                    ));
                }
            },
        }
        i += 1;
        proof {
            assert(records@ =~= orig_records.subrange(i as int, orig_records.len() as int));
            assert(lookups@ =~= orig_lookups.subrange(i as int, orig_lookups.len() as int));
        }
    }
    proof {
        assert(batch_spec(records@, lookups@) == Seq::<Market>::empty());
        assert(out@ =~= batch_spec(orig_records, orig_lookups));
    }
    out
}

/// Drop-on-error law of the batch pipeline: a market appears in the
/// pipeline's output exactly when some record's resolution produced it,
/// so per-record failures and misses never remove the markets that did
/// resolve, and never surface as an error of the batch itself.
pub proof fn lemma_batch_keeps_resolved(
    records: Seq<MarketRecord>,
    lookups: Seq<(AssetLookup, AssetLookup)>,
    m: Market,
)
    requires
        records.len() == lookups.len(),
    ensures
        batch_spec(records, lookups).contains(m) <==> exists|i: int|
            0 <= i < records.len() && resolve_spec(records[i], lookups[i].0, lookups[i].1)
                == Ok::<Option<Market>, DcaError>(Some(m)),
    decreases records.len(),
{
    if records.len() == 0 {
    } else {
        lemma_batch_keeps_resolved(records.drop_first(), lookups.drop_first(), m);
        let rest = batch_spec(records.drop_first(), lookups.drop_first());
        let head = resolve_spec(records[0], lookups[0].0, lookups[0].1);
        if batch_spec(records, lookups).contains(m) {
            if head == Ok::<Option<Market>, DcaError>(Some(m)) {
                assert(resolve_spec(records[0], lookups[0].0, lookups[0].1) == Ok::<
                    Option<Market>,
                    DcaError,
                >(Some(m)));
            } else {
                assert(rest.contains(m)) by {
                    let j = choose|j: int|
                        0 <= j < batch_spec(records, lookups).len() && batch_spec(
                            records,
                            lookups,
                        )[j] == m;
                    match head {
                        Ok(Some(h)) => {
                            assert(batch_spec(records, lookups) == seq![h] + rest);
                            assert(j != 0);
                            assert(rest[j - 1] == m);
                        },
                        _ => {
                            assert(batch_spec(records, lookups) == rest);
                        },
                    }
                }
                let i0 = choose|i: int|
                    0 <= i < records.drop_first().len() && resolve_spec(
                        records.drop_first()[i],
                        lookups.drop_first()[i].0,
                        lookups.drop_first()[i].1,
                    ) == Ok::<Option<Market>, DcaError>(Some(m));
                assert(records.drop_first()[i0] == records[i0 + 1]);
                assert(lookups.drop_first()[i0] == lookups[i0 + 1]);
                assert(resolve_spec(records[i0 + 1], lookups[i0 + 1].0, lookups[i0 + 1].1)
                    == Ok::<Option<Market>, DcaError>(Some(m)));
            }
        }
        if exists|i: int|
            0 <= i < records.len() && resolve_spec(records[i], lookups[i].0, lookups[i].1)
                == Ok::<Option<Market>, DcaError>(Some(m)) {
            let i = choose|i: int|
                0 <= i < records.len() && resolve_spec(records[i], lookups[i].0, lookups[i].1)
                    == Ok::<Option<Market>, DcaError>(Some(m));
            if i == 0 {
                assert(batch_spec(records, lookups) == seq![m] + rest);
                assert(batch_spec(records, lookups)[0] == m);
            } else {
                assert(records.drop_first()[i - 1] == records[i]);
                assert(lookups.drop_first()[i - 1] == lookups[i]);
                assert(rest.contains(m));
                let j = choose|j: int| 0 <= j < rest.len() && rest[j] == m;
                match head {
                    Ok(Some(h)) => {
                        assert(batch_spec(records, lookups)[j + 1] == m);
                    },
                    _ => {
                        assert(batch_spec(records, lookups)[j] == m);
                    },
                }
            }
        }
    }
}

} // verus!
