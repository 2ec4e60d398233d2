//! Market store: the key-value storage adapter over the fixed namespace.
//! One logical hash table, keyed by market id, holding the encoded record
//! as the field value. Each field key maps to at most one payload, and a
//! `store` overwrites the prior value entirely.
//!
//! The decode policies of the three read paths differ on purpose: a
//! single-record fetch propagates a decode failure, while the bulk fetch
//! and the full scan convert each per-record decode failure into an
//! absence and keep the rest. The free functions `decode_field`,
//! `decode_fields` and `decode_values` carry those policies, so an
//! adapter over an external key-value connection applies the same rules
//! to the raw field values it fetched.

use vstd::map::*;
use vstd::pervasive::VecAdditionalExecFns;
use vstd::prelude::*;

use crate::codec::{decode, decode_spec, encode, encode_spec};
use crate::entity::{Market, MarketId, MarketRecord, RecordView};
use crate::error::DcaError;

verus! {

/// What a store holds at one key, seen from its map view.
pub open spec fn stored_at(m: Map<Seq<char>, Seq<char>>, k: Seq<char>) -> Option<Seq<char>> {
    if m.contains_key(k) {
        Some(m[k])
    } else {
        None
    }
}

/// The soft decode policy of the bulk paths: an absent field stays
/// absent, and a payload that fails to decode becomes an absence too.
pub open spec fn soft_decode(raw: Option<Seq<char>>) -> Option<RecordView> {
    match raw {
        None => None,
        Some(s) => decode_spec(s),
    }
}

/// The records decoded out of a list of payloads, dropping each payload
/// that fails to decode and keeping the order of the rest.
pub open spec fn decoded_values(payloads: Seq<Seq<char>>) -> Seq<RecordView>
    decreases payloads.len(),
{
    if payloads.len() == 0 {
        Seq::empty()
    } else {
        let rest = decoded_values(payloads.drop_first());
        match decode_spec(payloads[0]) {
            Some(r) => seq![r] + rest,
            None => rest,
        }
    }
}

/// The in-memory model of the namespace: an association list with unique
/// keys. Its view is the map from market id to stored payload.
pub struct MarketStore {
    fields: Vec<(MarketId, String)>,
}

impl View for MarketStore {
    type V = Map<Seq<char>, Seq<char>>;

    closed spec fn view(&self) -> Map<Seq<char>, Seq<char>> {
        Map::new(
            |k: Seq<char>|
                exists|i: int| 0 <= i < self.fields@.len() && self.fields@[i].0@ == k,
            |k: Seq<char>|
                self.fields@[choose|i: int|
                    0 <= i < self.fields@.len() && self.fields@[i].0@ == k].1@,
        )
    }
}

impl MarketStore {
    /// Keys are unique: each field key maps to at most one record.
    pub closed spec fn wf(&self) -> bool {
        forall|i: int, j: int|
            0 <= i < j < self.fields@.len() ==> self.fields@[i].0@ != self.fields@[j].0@
    }

    /// The stored payloads, in field order.
    pub closed spec fn payloads(&self) -> Seq<Seq<char>> {
        self.fields@.map(|i: int, f: (MarketId, String)| f.1@)
    }

    proof fn lemma_view_at(&self, i: int)
        requires
            self.wf(),
            0 <= i < self.fields@.len(),
        ensures
            self@.contains_key(self.fields@[i].0@),
            self@[self.fields@[i].0@] == self.fields@[i].1@,
    {
        let k = self.fields@[i].0@;
        assert(self@.contains_key(k));
        let j = choose|j: int| 0 <= j < self.fields@.len() && self.fields@[j].0@ == k;
        assert(j == i);
    }

    proof fn lemma_view_absent(&self, k: Seq<char>)
        requires
            forall|i: int| 0 <= i < self.fields@.len() ==> self.fields@[i].0@ != k,
        ensures
            !self@.contains_key(k),
    {
    }

    /// An empty store: no field under any key.
    pub fn new() -> (s: MarketStore)
        ensures
            s.wf(),
            s@ == Map::<Seq<char>, Seq<char>>::empty(),
            s.payloads() == Seq::<Seq<char>>::empty(),
    {
        let s = MarketStore { fields: Vec::new() };
        proof {
            assert(s@ =~= Map::<Seq<char>, Seq<char>>::empty());
            assert(s.payloads() =~= Seq::<Seq<char>>::empty());
        }
        s
    }

    /// The index of the field with key `id`, if one exists.
    fn find_index(&self, id: &MarketId) -> (r: Option<usize>)
        requires
            self.wf(),
        ensures
            match r {
                Some(i) => i < self.fields@.len() && self.fields@[i as int].0@ == id@,
                None => forall|i: int|
                    0 <= i < self.fields@.len() ==> self.fields@[i].0@ != id@,
            },
    {
        let mut i: usize = 0;
        while i < self.fields.len()
            invariant
                i <= self.fields@.len(),
                forall|j: int| 0 <= j < i ==> self.fields@[j].0@ != id@,
            decreases self.fields@.len() - i,
        {
            if self.fields[i].0 == *id {
                return Some(i);
            }
            i += 1;
        }
        None
    }

    /// Write `payload` under `id`, replacing any prior value entirely.
    /// Returns whether a new field was created.
    fn set_field(&mut self, id: &MarketId, payload: String) -> (created: bool)
        requires
            old(self).wf(),
        ensures
            final(self).wf(),
            final(self)@ == old(self)@.insert(id@, payload@),
            created == !old(self)@.contains_key(id@),
    {
        let found = self.find_index(id);
        match found {
            Some(i) => {
                let entry = (id.clone(), payload);
                self.fields.set(i, entry);
                proof {
                    let pre = old(self).fields@;
                    let post = self.fields@;
                    assert(pre[i as int].0@ == id@);
                    assert(post[i as int].0@ == id@ && post[i as int].1@ == payload@);
                    assert(forall|j: int|
                        0 <= j < post.len() ==> #[trigger] post[j].0@ == pre[j].0@);
                    assert(self.wf());
                    assert_maps_equal!(self@, old(self)@.insert(id@, payload@), k => {
                        if k == id@ {
                            assert(post[i as int].0@ == k);
                            assert(self@.contains_key(k));
                            let j = choose|j: int| 0 <= j < post.len() && post[j].0@ == k;
                            assert(j == i as int);
                            assert(self@[k] == payload@);
                        } else {
                            if self@.contains_key(k) {
                                let j = choose|j: int| 0 <= j < post.len() && post[j].0@ == k;
                                assert(pre[j].0@ == k);
                                assert(old(self)@.contains_key(k));
                                assert(j != i as int);
                                assert(post[j] == pre[j]);
                                old(self).lemma_view_at(j);
                            }
                            if old(self)@.contains_key(k) {
                                let j0 = choose|j0: int| 0 <= j0 < pre.len() && pre[j0].0@ == k;
                                assert(post[j0].0@ == k);
                                assert(self@.contains_key(k));
                            }
                        }
                    });
                }
                false
            },
            None => {
                let entry = (id.clone(), payload);
                self.fields.push(entry);
                proof {
                    let pre = old(self).fields@;
                    let post = self.fields@;
                    assert(post.len() == pre.len() + 1);
                    assert(forall|j: int| 0 <= j < pre.len() ==> post[j] == pre[j]);
                    assert(post[post.len() - 1].0@ == id@ && post[post.len() - 1].1@ == payload@);
                    old(self).lemma_view_absent(id@);
                    assert(self.wf());
                    assert_maps_equal!(self@, old(self)@.insert(id@, payload@), k => {
                        if k == id@ {
                            assert(post[post.len() - 1].0@ == k);
                            assert(self@.contains_key(k));
                            let j = choose|j: int| 0 <= j < post.len() && post[j].0@ == k;
                            assert(j == post.len() - 1);
                            assert(self@[k] == payload@);
                        } else {
                            if self@.contains_key(k) {
                                let j = choose|j: int| 0 <= j < post.len() && post[j].0@ == k;
                                assert(j < pre.len());
                                assert(pre[j].0@ == k);
                                assert(old(self)@.contains_key(k));
                                assert(post[j] == pre[j]);
                                old(self).lemma_view_at(j);
                            }
                            if old(self)@.contains_key(k) {
                                let j0 = choose|j0: int| 0 <= j0 < pre.len() && pre[j0].0@ == k;
                                assert(post[j0].0@ == k);
                                assert(self@.contains_key(k));
                            }
                        }
                    });
                }
                true
            },
        }
    }

    /// Encode `market`'s record form and write it under the market's id,
    /// replacing any prior field entirely. Returns `true` exactly when a
    /// new field was created, `false` when an existing one was
    /// overwritten; the distinction is informational only. The result is
    /// a `Result` because an adapter over a remote store can fail in
    /// transport; this in-memory model never does.
    pub fn store(&mut self, market: &Market) -> (r: Result<bool, DcaError>)
        requires
            old(self).wf(),
        ensures
            final(self).wf(),
            final(self)@ == old(self)@.insert(market.id@, encode_spec(market.record_view())),
            r == Ok::<bool, DcaError>(!old(self)@.contains_key(market.id@)),
    {
        let record = market.to_record();
        let payload = encode(&record);
        let created = self.set_field(&market.id, payload);
        Ok(created)
    }

    /// Write a raw payload under `id`, as an out-of-band writer to the
    /// shared namespace would: the payload need not be a valid encoding.
    pub fn put_raw_field(&mut self, id: &MarketId, payload: &String)
        requires
            old(self).wf(),
        ensures
            final(self).wf(),
            final(self)@ == old(self)@.insert(id@, payload@),
    {
        let _ = self.set_field(id, payload.clone());
    }

    /// Single-field fetch: absent fields yield nothing, and a stored
    /// payload that fails to decode is a hard failure, propagated.
    pub fn find_by_id(&self, id: &MarketId) -> (r: Result<Option<MarketRecord>, DcaError>)
        requires
            self.wf(),
        ensures
            match r {
                Ok(Some(rec)) => self@.contains_key(id@) && decode_spec(self@[id@]) == Some(
                    rec@,
                ),
                Ok(None) => !self@.contains_key(id@),
                Err(e) => self@.contains_key(id@) && decode_spec(self@[id@]) is None && (
                e matches DcaError::JsonDeserializationFailure(p, t, c) && p@ == self@[id@]),
            },
    {
        let found = self.find_index(id);
        match found {
            None => {
                proof {
                    self.lemma_view_absent(id@);
                }
                Ok(None)
            },
            Some(i) => {
                proof {
                    self.lemma_view_at(i as int);
                }
                match decode(self.fields[i].1.as_str()) {
                    Ok(rec) => Ok(Some(rec)),
                    Err(e) => Err(e),
                }
            },
        }
    }

    /// Bulk multi-field fetch, matching the order of `ids`: an absent
    /// field yields an absence, and so does a field whose payload fails
    /// to decode — the soft policy, diverging from `find_by_id` on
    /// purpose. Only a transport failure of an adapter could yield `Err`;
    /// this in-memory model always succeeds.
    pub fn find_by_ids(&self, ids: &Vec<MarketId>) -> (r: Result<
        Vec<Option<MarketRecord>>,
        DcaError,
    >)
        requires
            self.wf(),
        ensures
            r matches Ok(out) && out@.len() == ids@.len() && forall|i: int|
                0 <= i < ids@.len() ==> record_opt_view(out@[i]) == soft_decode(
                    stored_at(self@, ids@[i]@),
                ),
    {
        let mut out: Vec<Option<MarketRecord>> = Vec::new();
        let mut i: usize = 0;
        while i < ids.len()
            invariant
                self.wf(),
                i <= ids@.len(),
                out@.len() == i,
                forall|j: int|
                    0 <= j < i ==> record_opt_view(out@[j]) == soft_decode(
                        stored_at(self@, ids@[j]@),
                    ),
            decreases ids@.len() - i,
        {
            let found = self.find_index(&ids[i]);
            match found {
                None => {
                    proof {
                        self.lemma_view_absent(ids@[i as int]@);
                    }
                    out.push(None);
                },
                Some(fi) => {
                    proof {
                        self.lemma_view_at(fi as int);
                    }
                    match decode(self.fields[fi].1.as_str()) {
                        Ok(rec) => out.push(Some(rec)),
                        Err(_) => out.push(None),
                    }
                },
            }
            i += 1;
        }
        Ok(out)
    }

    /// Full scan: decode every stored payload, dropping each one that
    /// fails to decode and returning the successfully decoded subset.
    /// Every returned record was decoded from some stored payload, and
    /// every stored payload that decodes is returned. Never fails solely
    /// because some records are malformed; only a transport failure of
    /// an adapter could yield `Err`.
    pub fn load_all(&self) -> (r: Result<Vec<MarketRecord>, DcaError>)
        requires
            self.wf(),
        ensures
            r matches Ok(out) && out.deep_view() == decoded_values(self.payloads()) && (
            forall|j: int| 0 <= j < out@.len() ==> stores_record(self@, out@[j]@)) && (
            forall|k: Seq<char>|
                self@.contains_key(k) && decode_spec(#[trigger] self@[k]) is Some
                    ==> out.deep_view().contains(decode_spec(self@[k])->Some_0)),
    {
        let mut out: Vec<MarketRecord> = Vec::new();
        let mut i: usize = 0;
        while i < self.fields.len()
            invariant
                self.wf(),
                i <= self.fields@.len(),
                out.deep_view() =~= decoded_values_prefix(self.payloads(), i as int),
                forall|j: int| #![trigger out@[j]]
                    0 <= j < out@.len() ==> exists|f: int|
                        0 <= f < i && decode_spec(#[trigger] self.fields@[f].1@) == Some(
                            out@[j]@,
                        ),
                forall|f: int|
                    0 <= f < i && decode_spec(#[trigger] self.fields@[f].1@) is Some
                        ==> out.deep_view().contains(
                        decode_spec(self.fields@[f].1@)->Some_0,
                    ),
            decreases self.fields@.len() - i,
        {
            let ghost pre_deep = out.deep_view();
            match decode(self.fields[i].1.as_str()) {
                Ok(rec) => {
                    out.push(rec);
                },
                Err(_) => {},
            }
            proof {
                lemma_decoded_values_snoc(self.payloads(), i as int);
                assert(out.deep_view() =~= decoded_values_prefix(self.payloads(), i as int + 1));
                assert(forall|j: int|
                    0 <= j < pre_deep.len() ==> out.deep_view()[j] == #[trigger] pre_deep[j]);
                assert(forall|v: RecordView|
                    pre_deep.contains(v) ==> #[trigger] out.deep_view().contains(v));
                if decode_spec(self.fields@[i as int].1@) is Some {
                    assert(out.deep_view().last() == decode_spec(
                        self.fields@[i as int].1@,
                    )->Some_0);
                    assert(out.deep_view().contains(
                        decode_spec(self.fields@[i as int].1@)->Some_0,
                    ));
                }
            }
            i += 1;
        }
        proof {
            assert(self.payloads().subrange(0, self.payloads().len() as int) =~= self.payloads());
            assert forall|j: int| 0 <= j < out@.len() implies stores_record(self@, out@[j]@) by {
                let f = choose|f: int|
                    0 <= f < self.fields@.len() && decode_spec(self.fields@[f].1@) == Some(
                        out@[j]@,
                    );
                self.lemma_view_at(f);
                assert(self@.contains_key(self.fields@[f].0@) && decode_spec(
                    self@[self.fields@[f].0@],
                ) == Some(out@[j]@));
            }
            assert forall|k: Seq<char>|
                self@.contains_key(k) && decode_spec(#[trigger] self@[k]) is Some implies out
                .deep_view().contains(decode_spec(self@[k])->Some_0) by {
                let f = choose|f: int|
                    0 <= f < self.fields@.len() && self.fields@[f].0@ == k;
                self.lemma_view_at(f);
                assert(self@[k] == self.fields@[f].1@);
            }
        }
        Ok(out)
    }
}

/// Some stored payload decodes to exactly this record.
pub open spec fn stores_record(m: Map<Seq<char>, Seq<char>>, rec: RecordView) -> bool {
    exists|k: Seq<char>|
        #[trigger] m.contains_key(k) && decode_spec(m[k]) == Some(rec)
}

/// The model of an optional record.
pub open spec fn record_opt_view(r: Option<MarketRecord>) -> Option<RecordView> {
    match r {
        Some(rec) => Some(rec@),
        None => None,
    }
}

/// The records decoded out of the first `n` payloads.
pub open spec fn decoded_values_prefix(payloads: Seq<Seq<char>>, n: int) -> Seq<RecordView> {
    decoded_values(payloads.subrange(0, n))
}

proof fn lemma_decoded_values_snoc(payloads: Seq<Seq<char>>, n: int)
    requires
        0 <= n < payloads.len(),
    ensures
        decoded_values_prefix(payloads, n + 1) == decoded_values_prefix(payloads, n) + (
        match decode_spec(payloads[n]) {
            Some(r) => seq![r],
            None => Seq::<RecordView>::empty(),
        }),
{
    lemma_decoded_values_push(payloads.subrange(0, n), payloads[n]);
    assert(payloads.subrange(0, n + 1) =~= payloads.subrange(0, n).push(payloads[n]));
}

proof fn lemma_decoded_values_push(payloads: Seq<Seq<char>>, last: Seq<char>)
    ensures
        decoded_values(payloads.push(last)) == decoded_values(payloads) + (match decode_spec(
            last,
        ) {
            Some(r) => seq![r],
            None => Seq::<RecordView>::empty(),
        }),
    decreases payloads.len(),
{
    let tail = match decode_spec(last) {
        Some(r) => seq![r],
        None => Seq::<RecordView>::empty(),
    };
    if payloads.len() == 0 {
        assert(payloads.push(last)[0] == last);
        assert(payloads.push(last).drop_first() =~~= Seq::<Seq<char>>::empty());
        assert(decoded_values(Seq::<Seq<char>>::empty()) == Seq::<RecordView>::empty());
        assert(decoded_values(payloads.push(last)) == (match decode_spec(last) {
            Some(r) => seq![r] + Seq::<RecordView>::empty(),
            None => Seq::<RecordView>::empty(),
        }));
        assert(decoded_values(payloads.push(last)) =~= decoded_values(payloads) + tail);
    } else {
        assert(payloads.push(last)[0] == payloads[0]);
        assert(payloads.push(last).drop_first() =~~= payloads.drop_first().push(last));
        lemma_decoded_values_push(payloads.drop_first(), last);
        let rest = decoded_values(payloads.drop_first().push(last));
        assert(rest == decoded_values(payloads.drop_first()) + tail);
        assert(decoded_values(payloads.push(last)) == (match decode_spec(payloads[0]) {
            Some(r) => seq![r] + rest,
            None => rest,
        }));
        if decode_spec(payloads[0]) is Some {
            let r0 = decode_spec(payloads[0])->Some_0;
            assert(decoded_values(payloads.push(last)) =~= (seq![r0] + decoded_values(
                payloads.drop_first(),
            )) + tail);
            assert(decoded_values(payloads) == seq![r0] + decoded_values(payloads.drop_first()));
        } else {
            assert(decoded_values(payloads.push(last)) =~= decoded_values(payloads) + tail);
        }
    }
}

/// The soft-failure law of the store: writing a market and reading it
/// back through the single-get path always yields its record form, and
/// writing the same market twice leaves the store's observable state
/// unchanged while the second write reports that no new field was
/// created.
pub proof fn lemma_store_idempotent(
    state: Map<Seq<char>, Seq<char>>,
    id: Seq<char>,
    payload: Seq<char>,
)
    ensures
        state.insert(id, payload).insert(id, payload) == state.insert(id, payload),
        state.insert(id, payload).contains_key(id),
{
    assert(state.insert(id, payload).insert(id, payload) =~= state.insert(id, payload));
}

/// Storing a market and fetching its key back yields its record form:
/// after a `store`, the payload under the market's id decodes to exactly
/// the record that was encoded, so `find_by_id` returns it.
pub proof fn lemma_store_then_find(
    state: Map<Seq<char>, Seq<char>>,
    id: Seq<char>,
    rec: RecordView,
)
    ensures
        state.insert(id, encode_spec(rec)).contains_key(id),
        decode_spec(state.insert(id, encode_spec(rec))[id]) == Some(rec),
{
    crate::codec::lemma_round_trip(rec);
}

/// Single-field decode with the hard-failure policy of `find_by_id`: an
/// absent field is an absence, a malformed payload is a propagated
/// failure carrying the raw payload.
pub fn decode_field(raw: Option<String>) -> (r: Result<Option<MarketRecord>, DcaError>)
    ensures
        match raw {
            None => r == Ok::<Option<MarketRecord>, DcaError>(None),
            Some(s) => match r {
                Ok(Some(rec)) => decode_spec(s@) == Some(rec@),
                Ok(None) => false,
                Err(e) => decode_spec(s@) is None && (e matches
                    DcaError::JsonDeserializationFailure(p, t, c) && p@ == s@),
            },
        },
{
    match raw {
        None => Ok(None),
        Some(s) => match decode(s.as_str()) {
            Ok(rec) => Ok(Some(rec)),
            Err(e) => Err(e),
        },
    }
}

/// Bulk decode with the soft-failure policy of `find_by_ids`: position
/// `i` of the result is the decoded record of position `i` of the input,
/// with absences and malformed payloads both becoming absences.
pub fn decode_fields(raws: &Vec<Option<String>>) -> (r: Vec<Option<MarketRecord>>)
    ensures
        r@.len() == raws@.len(),
        forall|i: int|
            0 <= i < raws@.len() ==> record_opt_view(r@[i]) == soft_decode(string_opt_view(
                raws@[i],
            )),
{
    let mut out: Vec<Option<MarketRecord>> = Vec::new();
    let mut i: usize = 0;
    while i < raws.len()
        invariant
            i <= raws@.len(),
            out@.len() == i,
            forall|j: int|
                0 <= j < i ==> record_opt_view(out@[j]) == soft_decode(string_opt_view(
                    raws@[j],
                )),
        decreases raws@.len() - i,
    {
        match &raws[i] {
            None => out.push(None),
            Some(s) => match decode(s.as_str()) {
                Ok(rec) => out.push(Some(rec)),
                Err(_) => out.push(None),
            },
        }
        i += 1;
    }
    out
}

/// Scan decode with the drop policy of `load_all`: the successfully
/// decoded subset, in input order, malformed payloads dropped.
pub fn decode_values(raws: &Vec<String>) -> (r: Vec<MarketRecord>)
    ensures
        r.deep_view() == decoded_values(raws.deep_view()),
{
    let mut out: Vec<MarketRecord> = Vec::new();
    let mut i: usize = 0;
    while i < raws.len()
        invariant
            i <= raws@.len(),
            out.deep_view() =~= decoded_values_prefix(raws.deep_view(), i as int),
        decreases raws@.len() - i,
    {
        match decode(raws[i].as_str()) {
            Ok(rec) => {
                out.push(rec);
            },
            Err(_) => {},
        }
        proof {
            lemma_decoded_values_snoc(raws.deep_view(), i as int);
            assert(out.deep_view() =~= decoded_values_prefix(raws.deep_view(), i as int + 1));
        }
        i += 1;
    }
    proof {
        assert(raws.deep_view().subrange(0, raws.deep_view().len() as int) =~= raws.deep_view());
    }
    out
}

/// The model of an optional raw field value.
pub open spec fn string_opt_view(r: Option<String>) -> Option<Seq<char>> {
    match r {
        Some(s) => Some(s@),
        None => None,
    }
}

} // verus!
