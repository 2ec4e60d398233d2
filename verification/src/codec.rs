//! Market record codec: a deterministic, JSON-shaped wire form for a
//! market record, `{"id":"...","base":"...","quote":"..."}`, with quote
//! and backslash characters escaped inside the identifier fields.
//! Encoding is total over well-formed records; decoding accepts exactly
//! the canonical encodings and fails on anything else.

use vstd::prelude::*;
use vstd::string::StringExecFns;

use crate::entity::{MarketRecord, RecordView};
use crate::error::DcaError;

verus! {

/// Characters that must be escaped inside an encoded identifier.
pub open spec fn escapes(c: char) -> bool {
    c == '"' || c == '\\'
}

/// Wire form of a single identifier character.
pub open spec fn esc_char(c: char) -> Seq<char> {
    if escapes(c) {
        seq!['\\', c]
    } else {
        seq![c]
    }
}

/// Wire form of an identifier: each character escaped as needed.
pub open spec fn esc(s: Seq<char>) -> Seq<char>
    decreases s.len(),
{
    if s.len() == 0 {
        Seq::empty()
    } else {
        esc_char(s[0]) + esc(s.drop_first())
    }
}

/// Appending one character to an identifier appends its wire form.
pub proof fn lemma_esc_snoc(s: Seq<char>, c: char)
    ensures
        esc(s.push(c)) == esc(s) + esc_char(c),
    decreases s.len(),
{
    if s.len() == 0 {
        assert(s.push(c)[0] == c);
        assert(s.push(c).drop_first() =~= Seq::<char>::empty());
        assert(esc(s.push(c)) == esc_char(c) + esc(Seq::<char>::empty()));
        assert(esc(s.push(c)) =~= esc(s) + esc_char(c));
    } else {
        assert(s.push(c)[0] == s[0]);
        assert(s.push(c).drop_first() =~= s.drop_first().push(c));
        assert(esc(s.push(c)) == esc_char(s[0]) + esc(s.drop_first().push(c)));
        lemma_esc_snoc(s.drop_first(), c);
        assert(esc(s.push(c)) =~= esc(s) + esc_char(c));
    }
}

/// The literal that opens an encoded record and introduces the id field.
pub open spec fn lit_open() -> Seq<char> {
    seq!['{', '"', 'i', 'd', '"', ':', '"']
}

/// The literal between the id field and the base field.
pub open spec fn lit_base() -> Seq<char> {
    seq![',', '"', 'b', 'a', 's', 'e', '"', ':', '"']
}

/// The literal between the base field and the quote field.
pub open spec fn lit_quote() -> Seq<char> {
    seq![',', '"', 'q', 'u', 'o', 't', 'e', '"', ':', '"']
}

/// The canonical wire form of a record.
pub open spec fn encode_spec(r: RecordView) -> Seq<char> {
    lit_open() + esc(r.id) + seq!['"'] + lit_base() + esc(r.base) + seq!['"'] + lit_quote()
        + esc(r.quote) + seq!['"', '}']
}

/// Parse an escaped identifier out of `s` starting at `pos`, up to and
/// including its closing quote. Returns the decoded identifier and the
/// position just past the closing quote.
pub open spec fn parse_str_at(s: Seq<char>, pos: int) -> Option<(Seq<char>, int)>
    decreases s.len() - pos,
        when 0 <= pos <= s.len()
{
    if pos >= s.len() {
        None
    } else if s[pos] == '"' {
        Some((Seq::empty(), pos + 1))
    } else if s[pos] == '\\' {
        if pos + 1 >= s.len() {
            None
        } else if escapes(s[pos + 1]) {
            match parse_str_at(s, pos + 2) {
                Some(p) => Some((seq![s[pos + 1]] + p.0, p.1)),
                None => None,
            }
        } else {
            None
        }
    } else {
        match parse_str_at(s, pos + 1) {
            Some(p) => Some((seq![s[pos]] + p.0, p.1)),
            None => None,
        }
    }
}

/// `s` holds the literal `lit` starting at `pos`.
pub open spec fn matches_at(s: Seq<char>, pos: int, lit: Seq<char>) -> bool {
    0 <= pos && pos + lit.len() <= s.len() && s.subrange(pos, pos + lit.len()) == lit
}

/// Decode the canonical wire form: the opening literal, the three escaped
/// identifier fields with their separating literals, and the closing brace
/// ending the input exactly.
pub open spec fn decode_spec(s: Seq<char>) -> Option<RecordView> {
    if !matches_at(s, 0, lit_open()) {
        None
    } else {
        match parse_str_at(s, lit_open().len() as int) {
            None => None,
            Some((id, p1)) => if !matches_at(s, p1, lit_base()) {
                None
            } else {
                match parse_str_at(s, p1 + lit_base().len()) {
                    None => None,
                    Some((base, p2)) => if !matches_at(s, p2, lit_quote()) {
                        None
                    } else {
                        match parse_str_at(s, p2 + lit_quote().len()) {
                            None => None,
                            Some((quote, p3)) => if p3 + 1 == s.len() && s[p3] == '}' {
                                Some(RecordView { id, base, quote })
                            } else {
                                None
                            },
                        }
                    },
                }
            },
        }
    }
}

/// Parsing the wire form of `x` followed by a closing quote recovers `x`
/// exactly and stops just past that quote.
proof fn lemma_parse_escaped(s: Seq<char>, pos: int, x: Seq<char>)
    requires
        0 <= pos,
        pos + esc(x).len() + 1 <= s.len(),
        s.subrange(pos, pos + esc(x).len()) == esc(x),
        s[pos + esc(x).len()] == '"',
    ensures
        parse_str_at(s, pos) == Some((x, pos + esc(x).len() + 1)),
    decreases x.len(),
{
    if x.len() == 0 {
        assert(s[pos] == '"');
        assert(x =~= Seq::<char>::empty());
    } else {
        let c = x[0];
        let rest = x.drop_first();
        assert(esc(x) == esc_char(c) + esc(rest));
        if escapes(c) {
            assert(esc(x)[0] == '\\' && esc(x)[1] == c);
            assert(s[pos] == '\\' && s[pos + 1] == c);
            assert(s.subrange(pos + 2, pos + 2 + esc(rest).len()) =~= esc(rest)) by {
                assert(forall|i: int|
                    0 <= i < esc(rest).len() ==> #[trigger] s.subrange(
                        pos + 2,
                        pos + 2 + esc(rest).len(),
                    )[i] == s.subrange(pos, pos + esc(x).len())[i + 2]);
            }
            lemma_parse_escaped(s, pos + 2, rest);
            assert(seq![s[pos + 1]] + rest =~= x);
        } else {
            assert(esc(x)[0] == c);
            assert(s[pos] == c);
            assert(s.subrange(pos + 1, pos + 1 + esc(rest).len()) =~= esc(rest)) by {
                assert(forall|i: int|
                    0 <= i < esc(rest).len() ==> #[trigger] s.subrange(
                        pos + 1,
                        pos + 1 + esc(rest).len(),
                    )[i] == s.subrange(pos, pos + esc(x).len())[i + 1]);
            }
            lemma_parse_escaped(s, pos + 1, rest);
            assert(seq![s[pos]] + rest =~= x);
        }
    }
}

/// Round trip: decoding the canonical wire form of any record yields that
/// record back, for every choice of identifier contents.
pub proof fn lemma_round_trip(r: RecordView)
    ensures
        decode_spec(encode_spec(r)) == Some(r),
{
    let s = encode_spec(r);
    let n0 = lit_open().len() as int;
    let e1 = n0 + esc(r.id).len();
    let p1 = e1 + 1;
    let n1 = p1 + lit_base().len();
    let e2 = n1 + esc(r.base).len();
    let p2 = e2 + 1;
    let n2 = p2 + lit_quote().len();
    let e3 = n2 + esc(r.quote).len();
    let p3 = e3 + 1;
    assert(s.len() == p3 + 1);

    assert(s.subrange(0, n0) =~= lit_open());
    assert(matches_at(s, 0, lit_open()));

    assert(s.subrange(n0, n0 + esc(r.id).len()) =~= esc(r.id));
    assert(s[e1] == '"');
    lemma_parse_escaped(s, n0, r.id);

    assert(s.subrange(p1, p1 + lit_base().len()) =~= lit_base());
    assert(matches_at(s, p1, lit_base()));

    assert(s.subrange(n1, n1 + esc(r.base).len()) =~= esc(r.base));
    assert(s[e2] == '"');
    lemma_parse_escaped(s, n1, r.base);

    assert(s.subrange(p2, p2 + lit_quote().len()) =~= lit_quote());
    assert(matches_at(s, p2, lit_quote()));

    assert(s.subrange(n2, n2 + esc(r.quote).len()) =~= esc(r.quote));
    assert(s[e3] == '"');
    lemma_parse_escaped(s, n2, r.quote);

    assert(s[p3] == '}');
    assert(decode_spec(s) == Some(RecordView { id: r.id, base: r.base, quote: r.quote }));
    assert(RecordView { id: r.id, base: r.base, quote: r.quote } == r);
}

/// Relies on String::push: appends the given character to the end of the
/// string, leaving everything before it unchanged.
#[verifier::external_body]
fn push_char(s: &mut String, c: char)
    ensures
        final(s)@ == old(s)@.push(c),
{
    s.push(c);
}

/// Append the wire form of `s` to `out`.
fn append_escaped(out: &mut String, s: &str)
    ensures
        final(out)@ == old(out)@ + esc(s@),
{
    let n = s.unicode_len();
    let mut i: usize = 0;
    while i < n
        invariant
            n == s@.len(),
            i <= n,
            out@ == old(out)@ + esc(s@.subrange(0, i as int)),
        decreases n - i,
    {
        let c = s.get_char(i);
        let ghost pre = out@;
        if c == '"' || c == '\\' {
            push_char(out, '\\');
        }
        push_char(out, c);
        proof {
            lemma_esc_snoc(s@.subrange(0, i as int), c);
            assert(s@.subrange(0, i as int + 1) =~= s@.subrange(0, i as int).push(c));
            assert(out@ =~= pre + esc_char(c));
            assert(out@ =~= old(out)@ + esc(s@.subrange(0, i as int + 1)));
        }
        i += 1;
    }
    proof {
        assert(s@.subrange(0, n as int) =~= s@);
    }
}

/// Serialize a record into its canonical wire form. Total: never fails for
/// a well-formed record, and the result length is bounded by the
/// identifier lengths plus the fixed framing.
pub fn encode(record: &MarketRecord) -> (r: String)
    ensures
        r@ == encode_spec(record@),
{
    let mut out = String::new();
    out.append("{\"id\":\"");
    append_escaped(&mut out, record.id.as_str());
    out.append("\",\"base\":\"");
    append_escaped(&mut out, record.base.as_str());
    out.append("\",\"quote\":\"");
    append_escaped(&mut out, record.quote.as_str());
    out.append("\"}");
    proof {
        reveal_strlit("{\"id\":\"");
        reveal_strlit("\",\"base\":\"");
        reveal_strlit("\",\"quote\":\"");
        reveal_strlit("\"}");
        assert(out@ =~= encode_spec(record@));
    }
    out
}

/// Parse an escaped identifier field out of `s` starting at `pos`,
/// following `parse_str_at` exactly.
fn parse_string(s: &str, n: usize, pos: usize) -> (r: Option<(String, usize)>)
    requires
        n == s@.len(),
        pos <= n,
    ensures
        match r {
            Some(p) => parse_str_at(s@, pos as int) == Some((p.0@, p.1 as int)) && pos < p.1
                <= n,
            None => parse_str_at(s@, pos as int) is None,
        },
    decreases n - pos,
{
    if pos == n {
        return None;
    }
    let c = s.get_char(pos);
    if c == '"' {
        Some((String::new(), pos + 1))
    } else if c == '\\' {
        if pos + 1 == n {
            return None;
        }
        let c2 = s.get_char(pos + 1);
        if c2 == '"' || c2 == '\\' {
            match parse_string(s, n, pos + 2) {
                Some((content, end)) => {
                    let mut prefixed = String::new();
                    push_char(&mut prefixed, c2);
                    prefixed.append(content.as_str());
                    proof {
                        assert(prefixed@ =~= seq![s@[pos as int + 1]] + content@);
                    }
                    Some((prefixed, end))
                },
                None => None,
            }
        } else {
            None
        }
    } else {
        match parse_string(s, n, pos + 1) {
            Some((content, end)) => {
                let mut prefixed = String::new();
                push_char(&mut prefixed, c);
                prefixed.append(content.as_str());
                proof {
                    assert(prefixed@ =~= seq![s@[pos as int]] + content@);
                }
                Some((prefixed, end))
            },
            None => None,
        }
    }
}

/// Check that `lit` occurs in `s` at position `pos`.
fn matches_lit(s: &str, n: usize, pos: usize, lit: &str, litn: usize) -> (r: bool)
    requires
        n == s@.len(),
        litn == lit@.len(),
        pos <= n,
    ensures
        r == matches_at(s@, pos as int, lit@),
{
    if n - pos < litn {
        return false;
    }
    let mut i: usize = 0;
    while i < litn
        invariant
            n == s@.len(),
            litn == lit@.len(),
            pos <= n,
            litn <= n - pos,
            i <= litn,
            forall|j: int| 0 <= j < i ==> s@[pos + j] == lit@[j],
        decreases litn - i,
    {
        if s.get_char(pos + i) != lit.get_char(i) {
            assert(s@.subrange(pos as int, pos + litn) != lit@) by {
                assert(s@.subrange(pos as int, pos + litn)[i as int] != lit@[i as int]);
            }
            return false;
        }
        i += 1;
    }
    proof {
        assert(s@.subrange(pos as int, pos + litn) =~= lit@);
    }
    true
}

/// The decode failure reported for a malformed payload: the raw payload
/// and the target type name are retained for diagnostics.
fn decode_failure(payload: &str) -> (e: DcaError)
    ensures
        e matches DcaError::JsonDeserializationFailure(p, t, c) && p@ == payload@,
{
    let cause = String::from_str("malformed market record");
    DcaError::JsonDeserializationFailure(
        payload.to_owned(),
        String::from_str("MarketRecord"),
        vec![cause],
    )
}

/// Deserialize a record from its wire form. Pure and side-effect free:
/// returns the decoded record exactly when the payload is a canonical
/// encoding, and a decode failure carrying the raw payload otherwise.
pub fn decode(payload: &str) -> (r: Result<MarketRecord, DcaError>)
    ensures
        match r {
            Ok(rec) => decode_spec(payload@) == Some(rec@),
            Err(e) => decode_spec(payload@) is None && (e matches
                DcaError::JsonDeserializationFailure(p, t, c) && p@ == payload@),
        },
{
    let n = payload.unicode_len();
    proof {
        reveal_strlit("{\"id\":\"");
        reveal_strlit(",\"base\":\"");
        reveal_strlit(",\"quote\":\"");
        assert("{\"id\":\""@ =~= lit_open());
        assert(",\"base\":\""@ =~= lit_base());
        assert(",\"quote\":\""@ =~= lit_quote());
    }
    if !matches_lit(payload, n, 0, "{\"id\":\"", 7) {
        return Err(decode_failure(payload));
    }
    let parsed_id = parse_string(payload, n, 7);
    let (id, p1) = match parsed_id {
        Some(p) => p,
        None => {
            return Err(decode_failure(payload));
        },
    };
    if !matches_lit(payload, n, p1, ",\"base\":\"", 9) {
        return Err(decode_failure(payload));
    }
    let parsed_base = parse_string(payload, n, p1 + 9);
    let (base, p2) = match parsed_base {
        Some(p) => p,
        None => {
            return Err(decode_failure(payload));
        },
    };
    if !matches_lit(payload, n, p2, ",\"quote\":\"", 10) {
        return Err(decode_failure(payload));
    }
    let parsed_quote = parse_string(payload, n, p2 + 10);
    let (quote, p3) = match parsed_quote {
        Some(p) => p,
        None => {
            return Err(decode_failure(payload));
        },
    };
    if p3 < n && p3 + 1 == n && payload.get_char(p3) == '}' {
        Ok(MarketRecord { id, base, quote })
    } else {
        Err(decode_failure(payload))
    }
}

} // verus!
