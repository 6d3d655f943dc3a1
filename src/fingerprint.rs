use vstd::prelude::*;
use vstd::utf8::{encode_utf8, encode_utf8_decode_utf8};

verus! {

/// Leading byte of every fingerprint preimage. Bump it whenever the layout
/// of the preimage changes, so that entries written under the old layout are
/// never looked up again.
pub const FORMAT_VERSION: u8 = 3;

/// A query against the remote log service; the cache key is derived from all
/// of its fields.
pub struct Query {
    pub log_group: String,
    pub log_stream: Option<String>,
    pub filter_pattern: Option<String>,
    pub start_time: Option<i64>,
    pub end_time: Option<i64>,
    pub max_items: Option<u64>,
}

pub struct QueryView {
    pub log_group: Seq<char>,
    pub log_stream: Option<Seq<char>>,
    pub filter_pattern: Option<Seq<char>>,
    pub start_time: Option<i64>,
    pub end_time: Option<i64>,
    pub max_items: Option<u64>,
}

pub open spec fn opt_chars(o: Option<String>) -> Option<Seq<char>> {
    match o {
        Some(s) => Some(s@),
        None => None,
    }
}

impl View for Query {
    type V = QueryView;

    open spec fn view(&self) -> QueryView {
        QueryView {
            log_group: self.log_group@,
            log_stream: opt_chars(self.log_stream),
            filter_pattern: opt_chars(self.filter_pattern),
            start_time: self.start_time,
            end_time: self.end_time,
            max_items: self.max_items,
        }
    }
}

/// The eight little-endian bytes of `x`.
pub open spec fn u64_le(x: u64) -> Seq<u8> {
    seq![
        (x & 0xff) as u8,
        ((x >> 8) & 0xff) as u8,
        ((x >> 16) & 0xff) as u8,
        ((x >> 24) & 0xff) as u8,
        ((x >> 32) & 0xff) as u8,
        ((x >> 40) & 0xff) as u8,
        ((x >> 48) & 0xff) as u8,
        ((x >> 56) & 0xff) as u8,
    ]
}

/// A byte string preceded by its length, so that it delimits itself.
pub open spec fn chunk(b: Seq<u8>) -> Seq<u8> {
    u64_le(b.len() as u64) + b
}

/// A text field: a presence tag, then the value, or the field's sentinel
/// when the value is absent.
pub open spec fn text_field(v: Option<Seq<char>>, sentinel: Seq<char>) -> Seq<u8> {
    match v {
        Some(s) => seq![1u8] + chunk(encode_utf8(s)),
        None => seq![0u8] + chunk(encode_utf8(sentinel)),
    }
}

/// A numeric field: a presence tag, then the value in eight bytes, or the
/// field's sentinel when the value is absent.
pub open spec fn number_field(v: Option<u64>, sentinel: Seq<char>) -> Seq<u8> {
    match v {
        Some(x) => seq![1u8] + u64_le(x),
        None => seq![0u8] + chunk(encode_utf8(sentinel)),
    }
}

pub open spec fn signed_bits(v: Option<i64>) -> Option<u64> {
    match v {
        Some(x) => Some(x as u64),
        None => None,
    }
}

pub open spec fn stream_sentinel() -> Seq<char> {
    "log-stream-name"@
}

pub open spec fn pattern_sentinel() -> Seq<char> {
    "filter-pattern"@
}

pub open spec fn start_sentinel() -> Seq<char> {
    "start-time"@
}

pub open spec fn end_sentinel() -> Seq<char> {
    "end-time"@
}

pub open spec fn max_sentinel() -> Seq<char> {
    "max-items"@
}

/// The bytes that are hashed to obtain the fingerprint of `q`: the format
/// version, then every field of the query in a fixed order.
pub open spec fn preimage(q: QueryView) -> Seq<u8> {
    seq![FORMAT_VERSION] + (chunk(encode_utf8(q.log_group)) + (text_field(
        q.log_stream,
        stream_sentinel(),
    ) + (text_field(q.filter_pattern, pattern_sentinel()) + (number_field(
        signed_bits(q.start_time),
        start_sentinel(),
    ) + (number_field(signed_bits(q.end_time), end_sentinel()) + number_field(
        q.max_items,
        max_sentinel(),
    ))))))
}

/// Names the SHA-1 digest of a byte string, as lowercase hexadecimal text.
pub uninterp spec fn sha1_hex_of(b: Seq<u8>) -> Seq<char>;

pub open spec fn is_hex_digit(c: char) -> bool {
    ('0' <= c && c <= '9') || ('a' <= c && c <= 'f')
}

/// Text made of lowercase hexadecimal digits only.
pub open spec fn is_hex_token(s: Seq<char>) -> bool {
    forall|i: int| 0 <= i < s.len() ==> is_hex_digit(#[trigger] s[i])
}

/// The cache key of a query.
pub open spec fn fingerprint_of(q: QueryView) -> Seq<char> {
    sha1_hex_of(preimage(q))
}

/// Relies on rust-crypto's `Sha1` through `Digest::input` and
/// `Digest::result_str`: the 160-bit digest of the input, rendered by
/// `ToHex` as two lowercase hexadecimal digits per byte.
#[verifier::external_body]
fn sha1_hex(b: &[u8]) -> (r: String)
    ensures
        r@ == sha1_hex_of(b@),
        r@.len() == 40,
        is_hex_token(r@),
{
    let mut hasher = crypto::sha1::Sha1::new();
    crypto::digest::Digest::input(&mut hasher, b);
    crypto::digest::Digest::result_str(&mut hasher)
}

fn push_u64(out: &mut Vec<u8>, x: u64)
    ensures
        final(out)@ == old(out)@ + u64_le(x),
{
    out.push((x & 0xff) as u8);
    out.push(((x >> 8) & 0xff) as u8);
    out.push(((x >> 16) & 0xff) as u8);
    out.push(((x >> 24) & 0xff) as u8);
    out.push(((x >> 32) & 0xff) as u8);
    out.push(((x >> 40) & 0xff) as u8);
    out.push(((x >> 48) & 0xff) as u8);
    out.push(((x >> 56) & 0xff) as u8);
    assert(out@ =~= old(out)@ + u64_le(x));
}

fn push_bytes(out: &mut Vec<u8>, b: &[u8])
    ensures
        final(out)@ == old(out)@ + b@,
{
    let mut i: usize = 0;
    while i < b.len()
        invariant
            i <= b@.len(),
            out@ == old(out)@ + b@.subrange(0, i as int),
        decreases b@.len() - i,
    {
        out.push(b[i]);
        i = i + 1;
        assert(b@.subrange(0, i as int) =~= b@.subrange(0, i - 1).push(b@[i - 1]));
        assert(out@ =~= old(out)@ + b@.subrange(0, i as int));
    }
    assert(b@.subrange(0, b@.len() as int) =~= b@);
}

fn push_chunk(out: &mut Vec<u8>, b: &[u8])
    ensures
        final(out)@ == old(out)@ + chunk(b@),
{
    push_u64(out, b.len() as u64);
    push_bytes(out, b);
    assert(out@ =~= old(out)@ + chunk(b@));
}

fn push_text(out: &mut Vec<u8>, v: &Option<String>, sentinel: &str)
    ensures
        final(out)@ == old(out)@ + text_field(opt_chars(*v), sentinel@),
{
    match v {
        Some(s) => {
            out.push(1u8);
            push_chunk(out, s.as_str().as_bytes());
        },
        None => {
            out.push(0u8);
            push_chunk(out, sentinel.as_bytes());
        },
    }
    assert(out@ =~= old(out)@ + text_field(opt_chars(*v), sentinel@));
}

fn push_number(out: &mut Vec<u8>, v: Option<u64>, sentinel: &str)
    ensures
        final(out)@ == old(out)@ + number_field(v, sentinel@),
{
    match v {
        Some(x) => {
            out.push(1u8);
            push_u64(out, x);
        },
        None => {
            out.push(0u8);
            push_chunk(out, sentinel.as_bytes());
        },
    }
    assert(out@ =~= old(out)@ + number_field(v, sentinel@));
}

fn signed_bits_of(v: Option<i64>) -> (r: Option<u64>)
    ensures
        r == signed_bits(v),
{
    match v {
        Some(x) => Some(x as u64),
        None => None,
    }
}

proof fn lemma_nest(
    v: Seq<u8>,
    a: Seq<u8>,
    b: Seq<u8>,
    c: Seq<u8>,
    d: Seq<u8>,
    e: Seq<u8>,
    f: Seq<u8>,
)
    ensures
        v + a + b + c + d + e + f == v + (a + (b + (c + (d + (e + f))))),
{
    assert(v + a + b + c + d + e + f =~= v + (a + (b + (c + (d + (e + f))))));
}

impl Query {
    /// The bytes that the fingerprint of this query is the digest of.
    pub fn preimage(&self) -> (r: Vec<u8>)
        ensures
            r@ == preimage(self@),
    {
        let mut out: Vec<u8> = Vec::new();
        out.push(FORMAT_VERSION);
        push_chunk(&mut out, self.log_group.as_str().as_bytes());
        push_text(&mut out, &self.log_stream, "log-stream-name");
        push_text(&mut out, &self.filter_pattern, "filter-pattern");
        push_number(&mut out, signed_bits_of(self.start_time), "start-time");
        push_number(&mut out, signed_bits_of(self.end_time), "end-time");
        push_number(&mut out, self.max_items, "max-items");
        proof {
            lemma_nest(
                seq![FORMAT_VERSION],
                chunk(encode_utf8(self.log_group@)),
                text_field(self@.log_stream, stream_sentinel()),
                text_field(self@.filter_pattern, pattern_sentinel()),
                number_field(signed_bits(self.start_time), start_sentinel()),
                number_field(signed_bits(self.end_time), end_sentinel()),
                number_field(self.max_items, max_sentinel()),
            );
        }
        out
    }

    /// The cache key of this query: forty lowercase hexadecimal digits that
    /// depend on the fields of the query alone.
    pub fn fingerprint(&self) -> (r: String)
        ensures
            r@ == fingerprint_of(self@),
            r@.len() == 40,
            is_hex_token(r@),
    {
        let bytes = self.preimage();
        sha1_hex(bytes.as_slice())
    }
}

pub open spec fn text_fits(v: Option<Seq<char>>) -> bool {
    match v {
        Some(s) => encode_utf8(s).len() <= u64::MAX,
        None => true,
    }
}

impl QueryView {
    /// Every text field has a byte length that its length prefix can hold,
    /// as any string in memory does.
    pub open spec fn fits(self) -> bool {
        encode_utf8(self.log_group).len() <= u64::MAX && text_fits(self.log_stream) && text_fits(
            self.filter_pattern,
        )
    }
}

proof fn lemma_split_eq(a1: Seq<u8>, r1: Seq<u8>, a2: Seq<u8>, r2: Seq<u8>)
    requires
        a1 + r1 == a2 + r2,
        a1.len() == a2.len(),
    ensures
        a1 == a2,
        r1 == r2,
{
    assert(a1 =~= (a1 + r1).subrange(0, a1.len() as int));
    assert(a2 =~= (a2 + r2).subrange(0, a2.len() as int));
    assert(r1 =~= (a1 + r1).subrange(a1.len() as int, (a1 + r1).len() as int));
    assert(r2 =~= (a2 + r2).subrange(a2.len() as int, (a2 + r2).len() as int));
}

proof fn lemma_u64_le_injective(x: u64, y: u64)
    requires
        u64_le(x) == u64_le(y),
    ensures
        x == y,
{
    assert(u64_le(x)[0] == u64_le(y)[0]);
    assert(u64_le(x)[1] == u64_le(y)[1]);
    assert(u64_le(x)[2] == u64_le(y)[2]);
    assert(u64_le(x)[3] == u64_le(y)[3]);
    assert(u64_le(x)[4] == u64_le(y)[4]);
    assert(u64_le(x)[5] == u64_le(y)[5]);
    assert(u64_le(x)[6] == u64_le(y)[6]);
    assert(u64_le(x)[7] == u64_le(y)[7]);
    assert(((x & 0xff) as u8 == (y & 0xff) as u8 && ((x >> 8) & 0xff) as u8 == ((y >> 8)
        & 0xff) as u8 && ((x >> 16) & 0xff) as u8 == ((y >> 16) & 0xff) as u8 && ((x >> 24)
        & 0xff) as u8 == ((y >> 24) & 0xff) as u8 && ((x >> 32) & 0xff) as u8 == ((y >> 32)
        & 0xff) as u8 && ((x >> 40) & 0xff) as u8 == ((y >> 40) & 0xff) as u8 && ((x >> 48)
        & 0xff) as u8 == ((y >> 48) & 0xff) as u8 && ((x >> 56) & 0xff) as u8 == ((y >> 56)
        & 0xff) as u8) ==> x == y) by (bit_vector);
}

proof fn lemma_chunk_split(b1: Seq<u8>, r1: Seq<u8>, b2: Seq<u8>, r2: Seq<u8>)
    requires
        chunk(b1) + r1 == chunk(b2) + r2,
        b1.len() <= u64::MAX,
        b2.len() <= u64::MAX,
    ensures
        b1 == b2,
        r1 == r2,
{
    assert(chunk(b1) + r1 =~= u64_le(b1.len() as u64) + (b1 + r1));
    assert(chunk(b2) + r2 =~= u64_le(b2.len() as u64) + (b2 + r2));
    lemma_split_eq(u64_le(b1.len() as u64), b1 + r1, u64_le(b2.len() as u64), b2 + r2);
    lemma_u64_le_injective(b1.len() as u64, b2.len() as u64);
    lemma_split_eq(b1, r1, b2, r2);
}

proof fn lemma_text_split(
    v1: Option<Seq<char>>,
    r1: Seq<u8>,
    v2: Option<Seq<char>>,
    r2: Seq<u8>,
    sentinel: Seq<char>,
)
    requires
        text_field(v1, sentinel) + r1 == text_field(v2, sentinel) + r2,
        text_fits(v1),
        text_fits(v2),
    ensures
        v1 == v2,
        r1 == r2,
{
    assert((text_field(v1, sentinel) + r1)[0] == (text_field(v2, sentinel) + r2)[0]);
    assert((text_field(v1, sentinel) + r1)[0] == text_field(v1, sentinel)[0]);
    assert((text_field(v2, sentinel) + r2)[0] == text_field(v2, sentinel)[0]);
    assert(text_field(v1, sentinel)[0] == if v1 is Some { 1u8 } else { 0u8 });
    assert(text_field(v2, sentinel)[0] == if v2 is Some { 1u8 } else { 0u8 });
    match (v1, v2) {
        (Some(s1), Some(s2)) => {
            let c1 = chunk(encode_utf8(s1));
            let c2 = chunk(encode_utf8(s2));
            assert(text_field(v1, sentinel) + r1 =~= seq![1u8] + (c1 + r1));
            assert(text_field(v2, sentinel) + r2 =~= seq![1u8] + (c2 + r2));
            lemma_split_eq(seq![1u8], c1 + r1, seq![1u8], c2 + r2);
            lemma_chunk_split(encode_utf8(s1), r1, encode_utf8(s2), r2);
            encode_utf8_decode_utf8(s1);
            encode_utf8_decode_utf8(s2);
        },
        (None, None) => {
            lemma_split_eq(text_field(v1, sentinel), r1, text_field(v2, sentinel), r2);
        },
        _ => {},
    }
}

proof fn lemma_number_split(
    v1: Option<u64>,
    r1: Seq<u8>,
    v2: Option<u64>,
    r2: Seq<u8>,
    sentinel: Seq<char>,
)
    requires
        number_field(v1, sentinel) + r1 == number_field(v2, sentinel) + r2,
    ensures
        v1 == v2,
        r1 == r2,
{
    assert((number_field(v1, sentinel) + r1)[0] == (number_field(v2, sentinel) + r2)[0]);
    assert((number_field(v1, sentinel) + r1)[0] == number_field(v1, sentinel)[0]);
    assert((number_field(v2, sentinel) + r2)[0] == number_field(v2, sentinel)[0]);
    assert(number_field(v1, sentinel)[0] == if v1 is Some { 1u8 } else { 0u8 });
    assert(number_field(v2, sentinel)[0] == if v2 is Some { 1u8 } else { 0u8 });
    match (v1, v2) {
        (Some(x1), Some(x2)) => {
            lemma_split_eq(number_field(v1, sentinel), r1, number_field(v2, sentinel), r2);
            assert(u64_le(x1) =~= number_field(v1, sentinel).subrange(1, 9));
            assert(u64_le(x2) =~= number_field(v2, sentinel).subrange(1, 9));
            lemma_u64_le_injective(x1, x2);
        },
        (None, None) => {
            lemma_split_eq(number_field(v1, sentinel), r1, number_field(v2, sentinel), r2);
        },
        _ => {},
    }
}

proof fn lemma_signed_bits_injective(a: Option<i64>, b: Option<i64>)
    requires
        signed_bits(a) == signed_bits(b),
    ensures
        a == b,
{
    if let (Some(x), Some(y)) = (a, b) {
        assert((x as u64) == (y as u64) ==> x == y) by (bit_vector);
    }
}

/// Two queries that differ in any field, including whether a field is
/// present at all, have different preimages; their fingerprints can then
/// coincide only through a collision of the digest.
pub proof fn lemma_distinct_queries_distinct_preimages(q1: QueryView, q2: QueryView)
    requires
        q1.fits(),
        q2.fits(),
        q1 != q2,
    ensures
        preimage(q1) != preimage(q2),
{
    if preimage(q1) == preimage(q2) {
        let m1 = number_field(q1.max_items, max_sentinel());
        let m2 = number_field(q2.max_items, max_sentinel());
        let e1 = number_field(signed_bits(q1.end_time), end_sentinel()) + m1;
        let e2 = number_field(signed_bits(q2.end_time), end_sentinel()) + m2;
        let s1 = number_field(signed_bits(q1.start_time), start_sentinel()) + e1;
        let s2 = number_field(signed_bits(q2.start_time), start_sentinel()) + e2;
        let p1 = text_field(q1.filter_pattern, pattern_sentinel()) + s1;
        let p2 = text_field(q2.filter_pattern, pattern_sentinel()) + s2;
        let l1 = text_field(q1.log_stream, stream_sentinel()) + p1;
        let l2 = text_field(q2.log_stream, stream_sentinel()) + p2;
        let g1 = chunk(encode_utf8(q1.log_group)) + l1;
        let g2 = chunk(encode_utf8(q2.log_group)) + l2;
        lemma_split_eq(seq![FORMAT_VERSION], g1, seq![FORMAT_VERSION], g2);
        lemma_chunk_split(encode_utf8(q1.log_group), l1, encode_utf8(q2.log_group), l2);
        encode_utf8_decode_utf8(q1.log_group);
        encode_utf8_decode_utf8(q2.log_group);
        lemma_text_split(q1.log_stream, p1, q2.log_stream, p2, stream_sentinel());
        lemma_text_split(q1.filter_pattern, s1, q2.filter_pattern, s2, pattern_sentinel());
        lemma_number_split(
            signed_bits(q1.start_time),
            e1,
            signed_bits(q2.start_time),
            e2,
            start_sentinel(),
        );
        lemma_signed_bits_injective(q1.start_time, q2.start_time);
        lemma_number_split(
            signed_bits(q1.end_time),
            m1,
            signed_bits(q2.end_time),
            m2,
            end_sentinel(),
        );
        lemma_signed_bits_injective(q1.end_time, q2.end_time);
        assert(m1 + Seq::<u8>::empty() =~= m1);
        assert(m2 + Seq::<u8>::empty() =~= m2);
        lemma_number_split(
            q1.max_items,
            Seq::<u8>::empty(),
            q2.max_items,
            Seq::<u8>::empty(),
            max_sentinel(),
        );
        assert(q1 == q2);
    }
}

/// The fingerprint depends on the fields of the query alone: equal queries
/// get the same key, in every call and in every process.
pub proof fn lemma_fingerprint_stable(q1: QueryView, q2: QueryView)
    requires
        q1 == q2,
    ensures
        fingerprint_of(q1) == fingerprint_of(q2),
{
}

} // verus!
