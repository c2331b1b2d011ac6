//! Shaping a lookup result as an HTTP reply: a JSON payload with caching
//! directives on a hit, a human-readable not-found body on a miss.

use vstd::prelude::*;
use crate::index::{CITY_FIELD, CODE_FIELD, Location, LocationSpec, MIN_FIELDS, PostalIndex,
    STATE_FIELD, index_of_file, lemma_absent_key, lemma_last_writer_wins, lookup_postal_code};
use crate::rows::rows_of;

verus! {

/// Double quote.
pub const QUOTE: u8 = 34;

/// Backslash.
pub const BACKSLASH: u8 = 92;

/// The value of a hexadecimal digit as a lower-case ASCII byte.
pub open spec fn hex_digit(n: int) -> u8 {
    if n < 10 {
        (48 + n) as u8
    } else {
        (87 + n) as u8
    }
}

/// JSON escape of one byte of string content: quote and backslash are
/// backslash-escaped, control bytes get their short escape where one exists
/// and a lower-case `\u00xx` escape otherwise, and every other byte stands
/// for itself.
pub open spec fn escaped_byte(b: u8) -> Seq<u8> {
    if b == QUOTE {
        seq![BACKSLASH, QUOTE]
    } else if b == BACKSLASH {
        seq![BACKSLASH, BACKSLASH]
    } else if b == 8 {
        seq![BACKSLASH, 98u8]
    } else if b == 9 {
        seq![BACKSLASH, 116u8]
    } else if b == 10 {
        seq![BACKSLASH, 110u8]
    } else if b == 12 {
        seq![BACKSLASH, 102u8]
    } else if b == 13 {
        seq![BACKSLASH, 114u8]
    } else if b < 32 {
        seq![BACKSLASH, 117u8, 48u8, 48u8, hex_digit(b as int / 16), hex_digit(b as int % 16)]
    } else {
        seq![b]
    }
}

/// JSON escape of a whole byte string, byte by byte.
pub open spec fn json_escaped(s: Seq<u8>) -> Seq<u8>
    decreases s.len(),
{
    if s.len() == 0 {
        Seq::<u8>::empty()
    } else {
        json_escaped(s.drop_last()) + escaped_byte(s.last())
    }
}

/// The opening of the payload object, up to the city value.
pub open spec fn body_prefix() -> Seq<u8> {
    seq![123u8, 34u8, 99u8, 105u8, 116u8, 121u8, 34u8, 58u8, 34u8]
}

/// The middle of the payload object, between the city and state values.
pub open spec fn body_middle() -> Seq<u8> {
    seq![34u8, 44u8, 34u8, 115u8, 116u8, 97u8, 116u8, 101u8, 34u8, 58u8, 34u8]
}

/// The close of the payload object.
pub open spec fn body_suffix() -> Seq<u8> {
    seq![34u8, 125u8]
}

/// The success payload: the location as a JSON object with `city` and
/// `state` members, their values JSON-escaped.
pub open spec fn body_of(loc: LocationSpec) -> Seq<u8> {
    body_prefix() + json_escaped(loc.city) + body_middle() + json_escaped(loc.state)
        + body_suffix()
}

/// The miss payload: the JSON string `"Postal code not found"`.
pub open spec fn not_found_body() -> Seq<u8> {
    seq![
        34u8, 80u8, 111u8, 115u8, 116u8, 97u8, 108u8, 32u8, 99u8, 111u8, 100u8, 101u8, 32u8, 110u8,
        111u8, 116u8, 32u8, 102u8, 111u8, 117u8, 110u8, 100u8, 34u8,
    ]
}

/// The cache-control directive attached to every hit: publicly cacheable for
/// 24 hours.
pub open spec fn cache_control_value() -> Seq<u8> {
    seq![
        112u8, 117u8, 98u8, 108u8, 105u8, 99u8, 44u8, 32u8, 109u8, 97u8, 120u8, 45u8, 97u8, 103u8,
        101u8, 61u8, 56u8, 54u8, 52u8, 48u8, 48u8,
    ]
}

/// The entity tag for a request key: the key between double quotes. The same
/// key always yields the same tag.
pub open spec fn etag_of(k: Seq<u8>) -> Seq<u8> {
    seq![QUOTE] + k + seq![QUOTE]
}

/// Spec-level image of an HTTP reply.
#[verifier::ext_equal]
pub struct ReplySpec {
    pub status: int,
    pub cache_control: Option<Seq<u8>>,
    pub etag: Option<Seq<u8>>,
    pub body: Seq<u8>,
}

/// An HTTP reply as plain values: status code, optional caching headers, and
/// body bytes. The transport layer only copies these onto the wire.
pub struct HttpReply {
    pub status: u16,
    pub cache_control: Option<Vec<u8>>,
    pub etag: Option<Vec<u8>>,
    pub body: Vec<u8>,
}

impl View for HttpReply {
    type V = ReplySpec;

    open spec fn view(&self) -> ReplySpec {
        ReplySpec {
            status: self.status as int,
            cache_control: match self.cache_control {
                Some(v) => Some(v@),
                None => None,
            },
            etag: match self.etag {
                Some(v) => Some(v@),
                None => None,
            },
            body: self.body@,
        }
    }
}

/// The reply owed for a request of key `k` against index content `m`: a hit
/// is a 200 carrying the stored location's payload, the fixed cache-control
/// directive and the key-derived entity tag; a miss is a 404 with the
/// not-found body and no caching directives.
pub open spec fn reply_spec(m: Map<Seq<u8>, LocationSpec>, k: Seq<u8>) -> ReplySpec {
    if m.contains_key(k) {
        ReplySpec {
            status: 200,
            cache_control: Some(cache_control_value()),
            etag: Some(etag_of(k)),
            body: body_of(m[k]),
        }
    } else {
        ReplySpec { status: 404, cache_control: None, etag: None, body: not_found_body() }
    }
}

/// Appends a byte string unchanged.
fn append_bytes(out: &mut Vec<u8>, s: &[u8])
    ensures
        final(out)@ == old(out)@ + s@,
{
    let mut i: usize = 0;
    while i < s.len()
        invariant
            i <= s@.len(),
            out@ == old(out)@ + s@.subrange(0, i as int),
        decreases s@.len() - i,
    {
        out.push(s[i]);
        i = i + 1;
        assert(out@ =~= old(out)@ + s@.subrange(0, i as int));
    }
    assert(out@ =~= old(out)@ + s@);
}

/// The value of a hexadecimal digit as a lower-case ASCII byte.
fn hex_digit_byte(n: u8) -> (r: u8)
    requires
        n < 16,
    ensures
        r == hex_digit(n as int),
{
    if n < 10 {
        48 + n
    } else {
        87 + n
    }
}

/// Appends the JSON escape of one byte of string content.
fn push_escaped_byte(out: &mut Vec<u8>, b: u8)
    ensures
        final(out)@ == old(out)@ + escaped_byte(b),
{
    if b == QUOTE {
        out.push(BACKSLASH);
        out.push(QUOTE);
    } else if b == BACKSLASH {
        out.push(BACKSLASH);
        out.push(BACKSLASH);
    } else if b == 8 {
        out.push(BACKSLASH);
        out.push(98u8);
    } else if b == 9 {
        out.push(BACKSLASH);
        out.push(116u8);
    } else if b == 10 {
        out.push(BACKSLASH);
        out.push(110u8);
    } else if b == 12 {
        out.push(BACKSLASH);
        out.push(102u8);
    } else if b == 13 {
        out.push(BACKSLASH);
        out.push(114u8);
    } else if b < 32 {
        out.push(BACKSLASH);
        out.push(117u8);
        out.push(48u8);
        out.push(48u8);
        assert(b / 16 < 16 && b % 16 < 16);
        out.push(hex_digit_byte(b / 16));
        out.push(hex_digit_byte(b % 16));
    } else {
        out.push(b);
    }
    assert(out@ =~= old(out)@ + escaped_byte(b));
}

/// Appends the JSON escape of a whole byte string.
fn append_escaped(out: &mut Vec<u8>, s: &[u8])
    ensures
        final(out)@ == old(out)@ + json_escaped(s@),
{
    let mut i: usize = 0;
    assert(out@ =~= old(out)@ + json_escaped(s@.subrange(0, 0)));
    while i < s.len()
        invariant
            i <= s@.len(),
            out@ == old(out)@ + json_escaped(s@.subrange(0, i as int)),
        decreases s@.len() - i,
    {
        push_escaped_byte(out, s[i]);
        proof {
            let t = s@.subrange(0, i as int + 1);
            assert(t.drop_last() =~= s@.subrange(0, i as int));
            assert(t.last() == s@[i as int]);
            assert(out@ =~= old(out)@ + json_escaped(t));
        }
        i = i + 1;
    }
    assert(s@.subrange(0, s@.len() as int) =~= s@);
}

/// Builds the success payload for a location.
fn build_body(loc: &Location) -> (r: Vec<u8>)
    ensures
        r@ == body_of(loc@),
{
    let mut body: Vec<u8> = Vec::new();
    body.push(123u8);
    body.push(34u8);
    body.push(99u8);
    body.push(105u8);
    body.push(116u8);
    body.push(121u8);
    body.push(34u8);
    body.push(58u8);
    body.push(34u8);
    assert(body@ =~= Seq::<u8>::empty() + body_prefix());
    append_escaped(&mut body, loc.city.as_slice());
    let ghost after_city = body@;
    body.push(34u8);
    body.push(44u8);
    body.push(34u8);
    body.push(115u8);
    body.push(116u8);
    body.push(97u8);
    body.push(116u8);
    body.push(101u8);
    body.push(34u8);
    body.push(58u8);
    body.push(34u8);
    assert(body@ =~= after_city + body_middle());
    append_escaped(&mut body, loc.state.as_slice());
    let ghost after_state = body@;
    body.push(34u8);
    body.push(125u8);
    assert(body@ =~= after_state + body_suffix());
    assert(body@ =~= body_of(loc@));
    body
}

/// Builds the miss payload.
fn build_not_found_body() -> (r: Vec<u8>)
    ensures
        r@ == not_found_body(),
{
    let mut body: Vec<u8> = Vec::new();
    body.push(34u8);
    body.push(80u8);
    body.push(111u8);
    body.push(115u8);
    body.push(116u8);
    body.push(97u8);
    body.push(108u8);
    body.push(32u8);
    body.push(99u8);
    body.push(111u8);
    body.push(100u8);
    body.push(101u8);
    body.push(32u8);
    body.push(110u8);
    body.push(111u8);
    body.push(116u8);
    body.push(32u8);
    body.push(102u8);
    body.push(111u8);
    body.push(117u8);
    body.push(110u8);
    body.push(100u8);
    body.push(34u8);
    assert(body@ =~= not_found_body());
    body
}

/// Builds the fixed cache-control directive value.
fn build_cache_control() -> (r: Vec<u8>)
    ensures
        r@ == cache_control_value(),
{
    let mut v: Vec<u8> = Vec::new();
    v.push(112u8);
    v.push(117u8);
    v.push(98u8);
    v.push(108u8);
    v.push(105u8);
    v.push(99u8);
    v.push(44u8);
    v.push(32u8);
    v.push(109u8);
    v.push(97u8);
    v.push(120u8);
    v.push(45u8);
    v.push(97u8);
    v.push(103u8);
    v.push(101u8);
    v.push(61u8);
    v.push(56u8);
    v.push(54u8);
    v.push(52u8);
    v.push(48u8);
    v.push(48u8);
    assert(v@ =~= cache_control_value());
    v
}

/// Builds the entity tag for a request key.
fn build_etag(postal_code: &[u8]) -> (r: Vec<u8>)
    ensures
        r@ == etag_of(postal_code@),
{
    let mut v: Vec<u8> = Vec::new();
    v.push(QUOTE);
    assert(v@ =~= seq![QUOTE]);
    append_bytes(&mut v, postal_code);
    v.push(QUOTE);
    assert(v@ =~= etag_of(postal_code@));
    v
}

/// Answers one request: looks the postal code up, verbatim, and shapes the
/// reply that `reply_spec` owes for it. Only reads the index.
pub fn get_location(index: &PostalIndex, postal_code: &[u8]) -> (r: HttpReply)
    ensures
        r@ == reply_spec(index@, postal_code@),
{
    match lookup_postal_code(index, postal_code) {
        Some(loc) => {
            let body = build_body(&loc);
            let reply = HttpReply {
                status: 200,
                cache_control: Some(build_cache_control()),
                etag: Some(build_etag(postal_code)),
                body,
            };
            proof {
                assert(reply@ =~= reply_spec(index@, postal_code@));
            }
            reply
        },
        None => {
            let reply = HttpReply {
                status: 404,
                cache_control: None,
                etag: None,
                body: build_not_found_body(),
            };
            proof {
                assert(reply@ =~= reply_spec(index@, postal_code@));
            }
            reply
        },
    }
}

/// A present key is answered with 200: the body is the stored location's
/// JSON payload, the entity tag is the quoted key, and the reply is publicly
/// cacheable for 24 hours.
pub proof fn lemma_reply_present(m: Map<Seq<u8>, LocationSpec>, k: Seq<u8>)
    requires
        m.contains_key(k),
    ensures
        reply_spec(m, k).status == 200,
        reply_spec(m, k).body == body_of(m[k]),
        reply_spec(m, k).etag == Some(etag_of(k)),
        reply_spec(m, k).cache_control == Some(cache_control_value()),
{
}

/// An absent key is answered with 404: the body is the not-found message and
/// no caching directives are attached.
pub proof fn lemma_reply_absent(m: Map<Seq<u8>, LocationSpec>, k: Seq<u8>)
    requires
        !m.contains_key(k),
    ensures
        reply_spec(m, k).status == 404,
        reply_spec(m, k).body == not_found_body(),
        reply_spec(m, k).etag is None,
        reply_spec(m, k).cache_control is None,
{
}

/// End to end, a postal code present in the loaded dataset is served a 200:
/// when data row `j` carries code `k` with a city and a region and no later
/// row carries `k`, the reply for `k` against the loaded index carries that
/// row's location as its payload, the quoted key as its entity tag, and the
/// fixed cache-control directive.
pub proof fn lemma_present_key_served(data: Seq<u8>, j: int, k: Seq<u8>)
    requires
        rows_of(data).len() > 0,
        0 <= j < rows_of(data).skip(1).len(),
        rows_of(data).skip(1)[j].len() >= MIN_FIELDS,
        rows_of(data).skip(1)[j][CODE_FIELD as int] == k,
        forall|j2: int|
            j < j2 < rows_of(data).skip(1).len() ==> (rows_of(data).skip(1)[j2].len()
                >= MIN_FIELDS ==> rows_of(data).skip(1)[j2][CODE_FIELD as int] != k),
    ensures
        reply_spec(index_of_file(data), k).status == 200,
        reply_spec(index_of_file(data), k).body == body_of(
            LocationSpec {
                city: rows_of(data).skip(1)[j][CITY_FIELD as int],
                state: rows_of(data).skip(1)[j][STATE_FIELD as int],
            },
        ),
        reply_spec(index_of_file(data), k).etag == Some(etag_of(k)),
        reply_spec(index_of_file(data), k).cache_control == Some(cache_control_value()),
{
    lemma_last_writer_wins(rows_of(data).skip(1), j, k);
}

/// End to end, a postal code absent from the dataset is served a 404 with
/// the not-found body and no caching directives.
pub proof fn lemma_absent_key_served(data: Seq<u8>, k: Seq<u8>)
    requires
        rows_of(data).len() > 0 ==> forall|j: int|
            0 <= j < rows_of(data).skip(1).len() ==> (rows_of(data).skip(1)[j].len() >= MIN_FIELDS
                ==> rows_of(data).skip(1)[j][CODE_FIELD as int] != k),
    ensures
        reply_spec(index_of_file(data), k).status == 404,
        reply_spec(index_of_file(data), k).body == not_found_body(),
        reply_spec(index_of_file(data), k).etag is None,
        reply_spec(index_of_file(data), k).cache_control is None,
{
    if rows_of(data).len() > 0 {
        lemma_absent_key(rows_of(data).skip(1), k);
    }
}

} // verus!
