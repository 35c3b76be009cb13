//! The wire-format codec for proof bundles and stand-alone verifying keys.
//!
//! The format is the deterministic, length-prefixed layout that the matching
//! producer emits: a byte string is framed by its length as a little-endian
//! `u64`; a list is framed by its element count as a little-endian `u64`
//! followed by each framed element; an optional byte string is a marker byte
//! (0 = absent, 1 = present) followed, when present, by the framed bytes. A
//! bundle record is the framed segment list, then the framed key list, then
//! the optional public-value bytes, with nothing after them; a stand-alone
//! verifying key is a single framed byte string, with nothing after it.
//!
//! `spec_decode_record` / `spec_decode_key` are the mathematical meaning of
//! decoding; the executable decoder and encoder are proved against them and
//! against `spec_encode_record` / `spec_encode_key`.

use vstd::bytes::*;
use vstd::prelude::*;
use vstd::slice::*;

use crate::errors::DecodeError;

verus! {

/// The decoded form of a proof-bundle record, as mathematical sequences:
/// the proof segments, their verifying keys, and the optional public-value
/// bytes, in wire order.
pub ghost struct WireModel {
    pub segments: Seq<Seq<u8>>,
    pub verifying_keys: Seq<Seq<u8>>,
    pub public_values: Option<Seq<u8>>,
}

/// The decoded form of a proof-bundle record: the encoded proof segments,
/// the encoded verifying keys, and the optional public-value bytes, exactly
/// as they stood on the wire and in the same order.
#[derive(Debug, Clone, PartialEq, Eq)]
pub struct WireRecord {
    pub segments: Vec<Vec<u8>>,
    pub verifying_keys: Vec<Vec<u8>>,
    pub public_values: Option<Vec<u8>>,
}

impl View for WireRecord {
    type V = WireModel;

    open spec fn view(&self) -> WireModel {
        WireModel {
            segments: self.segments.deep_view(),
            verifying_keys: self.verifying_keys.deep_view(),
            public_values: self.public_values.deep_view(),
        }
    }
}

/// A byte string short enough for its length to be framed as a `u64`.
pub open spec fn blob_fits(b: Seq<u8>) -> bool {
    b.len() <= u64::MAX
}

/// A record whose counts and lengths all fit their `u64` frames; every
/// record held in executable memory satisfies this.
pub open spec fn wf_model(m: WireModel) -> bool {
    &&& m.segments.len() <= u64::MAX
    &&& m.verifying_keys.len() <= u64::MAX
    &&& forall|i: int| 0 <= i < m.segments.len() ==> blob_fits(#[trigger] m.segments[i])
    &&& forall|i: int|
        0 <= i < m.verifying_keys.len() ==> blob_fits(#[trigger] m.verifying_keys[i])
    &&& match m.public_values {
        Some(b) => blob_fits(b),
        None => true,
    }
}

// ---------------------------------------------------------------------------
// Encoding
// ---------------------------------------------------------------------------

/// A framed byte string: its length as a little-endian `u64`, then the bytes.
pub open spec fn spec_encode_blob(b: Seq<u8>) -> Seq<u8> {
    spec_u64_to_le_bytes(b.len() as u64) + b
}

/// The framed elements of a list, concatenated.
pub open spec fn spec_encode_blobs(s: Seq<Seq<u8>>) -> Seq<u8>
    decreases s.len(),
{
    if s.len() == 0 {
        Seq::empty()
    } else {
        spec_encode_blob(s[0]) + spec_encode_blobs(s.drop_first())
    }
}

/// A framed list: its element count as a little-endian `u64`, then each
/// element framed.
pub open spec fn spec_encode_blob_list(s: Seq<Seq<u8>>) -> Seq<u8> {
    spec_u64_to_le_bytes(s.len() as u64) + spec_encode_blobs(s)
}

/// An optional byte string: marker byte 0, or marker byte 1 followed by the
/// framed bytes.
pub open spec fn spec_encode_opt_blob(o: Option<Seq<u8>>) -> Seq<u8> {
    match o {
        None => seq![0u8],
        Some(b) => seq![1u8] + spec_encode_blob(b),
    }
}

/// A whole bundle record: segment list, key list, optional public values.
pub open spec fn spec_encode_record(m: WireModel) -> Seq<u8> {
    spec_encode_blob_list(m.segments) + spec_encode_blob_list(m.verifying_keys)
        + spec_encode_opt_blob(m.public_values)
}

/// A stand-alone verifying key: a single framed byte string.
pub open spec fn spec_encode_key(k: Seq<u8>) -> Seq<u8> {
    spec_encode_blob(k)
}

// ---------------------------------------------------------------------------
// Decoding
// ---------------------------------------------------------------------------
//
// Each `spec_parse_*` function reads one value from the front of a byte
// sequence and returns it with the number of bytes consumed, or the reason
// it stopped. `spec_decode_*` additionally demand that the value consumes
// the whole input.

pub open spec fn spec_parse_u64(b: Seq<u8>) -> Result<(u64, int), DecodeError> {
    if b.len() >= 8 {
        Ok((spec_u64_from_le_bytes(b.take(8)), 8))
    } else {
        Err(DecodeError::UnexpectedEnd)
    }
}

pub open spec fn spec_parse_blob(b: Seq<u8>) -> Result<(Seq<u8>, int), DecodeError> {
    match spec_parse_u64(b) {
        Err(e) => Err(e),
        Ok((n, _)) => if b.len() - 8 >= n {
            Ok((b.subrange(8, 8 + n as int), 8 + n as int))
        } else {
            Err(DecodeError::UnexpectedEnd)
        },
    }
}

pub open spec fn spec_parse_blobs(b: Seq<u8>, count: nat) -> Result<
    (Seq<Seq<u8>>, int),
    DecodeError,
>
    decreases count,
{
    if count == 0 {
        Ok((Seq::empty(), 0))
    } else {
        match spec_parse_blob(b) {
            Err(e) => Err(e),
            Ok((blob, used)) => match spec_parse_blobs(b.skip(used), (count - 1) as nat) {
                Err(e) => Err(e),
                Ok((rest, used2)) => Ok((seq![blob] + rest, used + used2)),
            },
        }
    }
}

pub open spec fn spec_parse_blob_list(b: Seq<u8>) -> Result<(Seq<Seq<u8>>, int), DecodeError> {
    match spec_parse_u64(b) {
        Err(e) => Err(e),
        Ok((count, _)) => match spec_parse_blobs(b.skip(8), count as nat) {
            Err(e) => Err(e),
            Ok((s, used)) => Ok((s, 8 + used)),
        },
    }
}

pub open spec fn spec_parse_opt_blob(b: Seq<u8>) -> Result<(Option<Seq<u8>>, int), DecodeError> {
    if b.len() < 1 {
        Err(DecodeError::UnexpectedEnd)
    } else if b[0] == 0 {
        Ok((None, 1))
    } else if b[0] == 1 {
        match spec_parse_blob(b.skip(1)) {
            Err(e) => Err(e),
            Ok((blob, used)) => Ok((Some(blob), 1 + used)),
        }
    } else {
        Err(DecodeError::InvalidOptionTag)
    }
}

/// What decoding a bundle record means: the three parts in order, consuming
/// the input exactly.
pub open spec fn spec_decode_record(b: Seq<u8>) -> Result<WireModel, DecodeError> {
    match spec_parse_blob_list(b) {
        Err(e) => Err(e),
        Ok((segments, u1)) => match spec_parse_blob_list(b.skip(u1)) {
            Err(e) => Err(e),
            Ok((keys, u2)) => match spec_parse_opt_blob(b.skip(u1 + u2)) {
                Err(e) => Err(e),
                Ok((pv, u3)) => if u1 + u2 + u3 == b.len() {
                    Ok(WireModel { segments, verifying_keys: keys, public_values: pv })
                } else {
                    Err(DecodeError::TrailingBytes)
                },
            },
        },
    }
}

/// What decoding a stand-alone verifying key means: one framed byte string,
/// consuming the input exactly.
pub open spec fn spec_decode_key(b: Seq<u8>) -> Result<Seq<u8>, DecodeError> {
    match spec_parse_blob(b) {
        Err(e) => Err(e),
        Ok((k, used)) => if used == b.len() {
            Ok(k)
        } else {
            Err(DecodeError::TrailingBytes)
        },
    }
}

// ---------------------------------------------------------------------------
// Executable encoder
// ---------------------------------------------------------------------------

/// `spec_encode_blobs` grows one framed element at a time.
proof fn lemma_encode_blobs_push(s: Seq<Seq<u8>>, b: Seq<u8>)
    ensures
        spec_encode_blobs(s.push(b)) == spec_encode_blobs(s) + spec_encode_blob(b),
    decreases s.len(),
{
    if s.len() == 0 {
        assert(s.push(b)[0] == b);
        assert(s.push(b).drop_first() =~= Seq::<Seq<u8>>::empty());
        assert(spec_encode_blobs(Seq::<Seq<u8>>::empty()) == Seq::<u8>::empty());
        assert(spec_encode_blobs(s.push(b)) == spec_encode_blob(b) + Seq::<u8>::empty());
        assert(spec_encode_blob(b) + Seq::<u8>::empty() =~= spec_encode_blobs(s)
            + spec_encode_blob(b));
    } else {
        assert(s.push(b).drop_first() =~= s.drop_first().push(b));
        lemma_encode_blobs_push(s.drop_first(), b);
        assert(spec_encode_blobs(s.push(b)) =~= spec_encode_blobs(s) + spec_encode_blob(b));
    }
}

/// Append the little-endian `u64` frame of `x`.
fn encode_u64_into(out: &mut Vec<u8>, x: u64)
    ensures
        final(out)@ == old(out)@ + spec_u64_to_le_bytes(x),
{
    let mut frame = u64_to_le_bytes(x);
    out.append(&mut frame);
}

/// Append one framed byte string.
fn encode_blob_into(out: &mut Vec<u8>, b: &Vec<u8>)
    ensures
        final(out)@ == old(out)@ + spec_encode_blob(b@),
{
    encode_u64_into(out, b.len() as u64);
    let mut body = slice_to_vec(b.as_slice());
    out.append(&mut body);
}

/// Append one framed list of byte strings.
fn encode_blob_list_into(out: &mut Vec<u8>, list: &Vec<Vec<u8>>)
    ensures
        final(out)@ == old(out)@ + spec_encode_blob_list(list.deep_view()),
{
    let ghost dv = list.deep_view();
    encode_u64_into(out, list.len() as u64);
    let ghost after_count = out@;
    let mut i: usize = 0;
    proof {
        assert(dv.take(0) =~= Seq::<Seq<u8>>::empty());
        assert(spec_encode_blobs(dv.take(0)) =~= Seq::<u8>::empty());
        assert(after_count + spec_encode_blobs(dv.take(0)) =~= after_count);
    }
    while i < list.len()
        invariant
            i <= list.len(),
            dv == list.deep_view(),
            dv.len() == list@.len(),
            out@ == after_count + spec_encode_blobs(dv.take(i as int)),
        decreases list@.len() - i,
    {
        proof {
            assert(dv[i as int] =~= list@[i as int]@);
            assert(dv.take(i + 1) =~= dv.take(i as int).push(dv[i as int]));
            lemma_encode_blobs_push(dv.take(i as int), dv[i as int]);
        }
        encode_blob_into(out, &list[i]);
        i = i + 1;
    }
    proof {
        assert(dv.take(dv.len() as int) =~= dv);
    }
}

/// Append one optional byte string.
fn encode_opt_blob_into(out: &mut Vec<u8>, o: &Option<Vec<u8>>)
    ensures
        final(out)@ == old(out)@ + spec_encode_opt_blob(o.deep_view()),
{
    match o {
        None => {
            out.push(0u8);
            proof {
                assert(old(out)@.push(0u8) =~= old(out)@ + seq![0u8]);
            }
        },
        Some(b) => {
            out.push(1u8);
            proof {
                assert(old(out)@.push(1u8) =~= old(out)@ + seq![1u8]);
                assert(b.deep_view() =~= b@);
            }
            encode_blob_into(out, b);
            proof {
                assert((old(out)@ + seq![1u8]) + spec_encode_blob(b@) =~= old(out)@ + (seq![1u8]
                    + spec_encode_blob(b@)));
            }
        },
    }
}

/// Encode a bundle record in the wire format.
pub fn encode_record(rec: &WireRecord) -> (r: Vec<u8>)
    ensures
        r@ == spec_encode_record(rec@),
{
    let mut out: Vec<u8> = Vec::new();
    proof {
        assert(Seq::<u8>::empty() + spec_encode_blob_list(rec.segments.deep_view())
            =~= spec_encode_blob_list(rec.segments.deep_view()));
    }
    encode_blob_list_into(&mut out, &rec.segments);
    encode_blob_list_into(&mut out, &rec.verifying_keys);
    encode_opt_blob_into(&mut out, &rec.public_values);
    out
}

/// Encode a stand-alone verifying key in the wire format.
pub fn encode_key(k: &Vec<u8>) -> (r: Vec<u8>)
    ensures
        r@ == spec_encode_key(k@),
{
    let mut out: Vec<u8> = Vec::new();
    encode_blob_into(&mut out, k);
    proof {
        assert(Seq::<u8>::empty() + spec_encode_blob(k@) =~= spec_encode_blob(k@));
    }
    out
}

// ---------------------------------------------------------------------------
// Round trip: decoding an encoding gives back the encoded record
// ---------------------------------------------------------------------------

proof fn lemma_parse_u64_of_encode(x: u64, rest: Seq<u8>)
    ensures
        spec_parse_u64(spec_u64_to_le_bytes(x) + rest) == Ok::<_, DecodeError>((x, 8int)),
{
    lemma_auto_spec_u64_to_from_le_bytes();
    assert((spec_u64_to_le_bytes(x) + rest).take(8) =~= spec_u64_to_le_bytes(x));
}

proof fn lemma_parse_blob_of_encode(b: Seq<u8>, rest: Seq<u8>)
    requires
        blob_fits(b),
    ensures
        spec_parse_blob(spec_encode_blob(b) + rest) == Ok::<_, DecodeError>(
            (b, 8 + b.len() as int),
        ),
{
    lemma_auto_spec_u64_to_from_le_bytes();
    let x = b.len() as u64;
    let whole = spec_encode_blob(b) + rest;
    assert(whole =~= spec_u64_to_le_bytes(x) + (b + rest));
    lemma_parse_u64_of_encode(x, b + rest);
    assert(whole.subrange(8, 8 + x as int) =~= b);
}

proof fn lemma_parse_blobs_of_encode(s: Seq<Seq<u8>>, rest: Seq<u8>)
    requires
        forall|i: int| 0 <= i < s.len() ==> blob_fits(#[trigger] s[i]),
    ensures
        spec_parse_blobs(spec_encode_blobs(s) + rest, s.len()) == Ok::<_, DecodeError>(
            (s, spec_encode_blobs(s).len() as int),
        ),
    decreases s.len(),
{
    lemma_auto_spec_u64_to_from_le_bytes();
    if s.len() == 0 {
        assert(spec_encode_blobs(s) == Seq::<u8>::empty());
        assert(Seq::<Seq<u8>>::empty() =~= s);
    } else {
        let b0 = s[0];
        let tail = s.drop_first();
        let whole = spec_encode_blobs(s) + rest;
        assert(whole =~= spec_encode_blob(b0) + (spec_encode_blobs(tail) + rest));
        lemma_parse_blob_of_encode(b0, spec_encode_blobs(tail) + rest);
        assert(whole.skip(8 + b0.len() as int) =~= spec_encode_blobs(tail) + rest);
        assert(forall|i: int| 0 <= i < tail.len() ==> blob_fits(#[trigger] tail[i]));
        lemma_parse_blobs_of_encode(tail, rest);
        assert(seq![b0] + tail =~= s);
        assert(spec_encode_blobs(s).len() == 8 + b0.len() + spec_encode_blobs(tail).len());
    }
}

proof fn lemma_parse_blob_list_of_encode(s: Seq<Seq<u8>>, rest: Seq<u8>)
    requires
        s.len() <= u64::MAX,
        forall|i: int| 0 <= i < s.len() ==> blob_fits(#[trigger] s[i]),
    ensures
        spec_parse_blob_list(spec_encode_blob_list(s) + rest) == Ok::<_, DecodeError>(
            (s, spec_encode_blob_list(s).len() as int),
        ),
{
    lemma_auto_spec_u64_to_from_le_bytes();
    let x = s.len() as u64;
    let whole = spec_encode_blob_list(s) + rest;
    assert(whole =~= spec_u64_to_le_bytes(x) + (spec_encode_blobs(s) + rest));
    lemma_parse_u64_of_encode(x, spec_encode_blobs(s) + rest);
    assert(whole.skip(8) =~= spec_encode_blobs(s) + rest);
    lemma_parse_blobs_of_encode(s, rest);
}

proof fn lemma_parse_opt_of_encode(o: Option<Seq<u8>>, rest: Seq<u8>)
    requires
        match o {
            Some(b) => blob_fits(b),
            None => true,
        },
    ensures
        spec_parse_opt_blob(spec_encode_opt_blob(o) + rest) == Ok::<_, DecodeError>(
            (o, spec_encode_opt_blob(o).len() as int),
        ),
{
    lemma_auto_spec_u64_to_from_le_bytes();
    let whole = spec_encode_opt_blob(o) + rest;
    match o {
        None => {
            assert(whole[0] == 0u8);
        },
        Some(b) => {
            assert(whole[0] == 1u8);
            assert(whole.skip(1) =~= spec_encode_blob(b) + rest);
            lemma_parse_blob_of_encode(b, rest);
            assert(spec_encode_opt_blob(o).len() == 1 + 8 + b.len());
        },
    }
}

/// Round trip for bundle records: decoding an encoded record gives back
/// exactly the segment sequence, key sequence and public values that were
/// encoded, in the same order.
pub proof fn lemma_record_round_trip(m: WireModel)
    requires
        wf_model(m),
    ensures
        spec_decode_record(spec_encode_record(m)) == Ok::<_, DecodeError>(m),
{
    lemma_auto_spec_u64_to_from_le_bytes();
    let e1 = spec_encode_blob_list(m.segments);
    let e2 = spec_encode_blob_list(m.verifying_keys);
    let e3 = spec_encode_opt_blob(m.public_values);
    let whole = spec_encode_record(m);
    assert(whole =~= e1 + (e2 + e3));
    lemma_parse_blob_list_of_encode(m.segments, e2 + e3);
    assert(whole.skip(e1.len() as int) =~= e2 + e3);
    lemma_parse_blob_list_of_encode(m.verifying_keys, e3);
    assert(whole.skip(e1.len() + e2.len() as int) =~= e3 + Seq::<u8>::empty());
    lemma_parse_opt_of_encode(m.public_values, Seq::<u8>::empty());
    assert(e3.len() == (e3 + Seq::<u8>::empty()).len());
    assert(whole.len() == e1.len() + e2.len() + e3.len());
}

/// Round trip for stand-alone verifying keys.
pub proof fn lemma_key_round_trip(k: Seq<u8>)
    requires
        blob_fits(k),
    ensures
        spec_decode_key(spec_encode_key(k)) == Ok::<_, DecodeError>(k),
{
    lemma_auto_spec_u64_to_from_le_bytes();
    assert(spec_encode_key(k) =~= spec_encode_blob(k) + Seq::<u8>::empty());
    lemma_parse_blob_of_encode(k, Seq::<u8>::empty());
}

// ---------------------------------------------------------------------------
// Exactness: the decoder accepts nothing but encodings
// ---------------------------------------------------------------------------
//
// The inverse of the round trip: any input that decodes is, byte for byte,
// the encoding of what it decoded to. Decoding never silently accepts a
// stream the matching producer could not have emitted.

proof fn lemma_parse_u64_exact(b: Seq<u8>)
    ensures
        match spec_parse_u64(b) {
            Ok(p) => spec_u64_to_le_bytes(p.0) == b.take(8) && p.1 == 8,
            Err(_) => true,
        },
{
    lemma_auto_spec_u64_to_from_le_bytes();
    if b.len() >= 8 {
        assert(b.take(8).len() == 8);
    }
}

proof fn lemma_parse_blob_exact(b: Seq<u8>)
    ensures
        match spec_parse_blob(b) {
            Ok(p) => {
                &&& blob_fits(p.0)
                &&& spec_encode_blob(p.0) == b.take(p.1)
                &&& 8 <= p.1 <= b.len()
            },
            Err(_) => true,
        },
{
    lemma_auto_spec_u64_to_from_le_bytes();
    lemma_parse_u64_exact(b);
    match spec_parse_u64(b) {
        Ok((n, _)) => {
            if b.len() - 8 >= n {
                let v = b.subrange(8, 8 + n as int);
                assert(v.len() as u64 == n);
                assert(spec_encode_blob(v) =~= b.take(8 + n as int));
            }
        },
        Err(_) => {},
    }
}

proof fn lemma_parse_blobs_exact(b: Seq<u8>, count: nat)
    ensures
        match spec_parse_blobs(b, count) {
            Ok(p) => {
                &&& p.0.len() == count
                &&& forall|i: int| 0 <= i < p.0.len() ==> blob_fits(#[trigger] p.0[i])
                &&& spec_encode_blobs(p.0) == b.take(p.1)
                &&& 0 <= p.1 <= b.len()
            },
            Err(_) => true,
        },
    decreases count,
{
    if count == 0 {
        assert(b.take(0) =~= Seq::<u8>::empty());
    } else {
        lemma_parse_blob_exact(b);
        match spec_parse_blob(b) {
            Ok((blob, used)) => {
                lemma_parse_blobs_exact(b.skip(used), (count - 1) as nat);
                match spec_parse_blobs(b.skip(used), (count - 1) as nat) {
                    Ok((rest, used2)) => {
                        let s = seq![blob] + rest;
                        assert(s[0] == blob);
                        assert(s.drop_first() =~= rest);
                        assert(spec_encode_blobs(s) == spec_encode_blob(blob)
                            + spec_encode_blobs(rest));
                        assert(b.take(used) + b.skip(used).take(used2) =~= b.take(used + used2));
                    },
                    Err(_) => {},
                }
            },
            Err(_) => {},
        }
    }
}

proof fn lemma_parse_blob_list_exact(b: Seq<u8>)
    ensures
        match spec_parse_blob_list(b) {
            Ok(p) => {
                &&& p.0.len() <= u64::MAX
                &&& forall|i: int| 0 <= i < p.0.len() ==> blob_fits(#[trigger] p.0[i])
                &&& spec_encode_blob_list(p.0) == b.take(p.1)
                &&& 8 <= p.1 <= b.len()
            },
            Err(_) => true,
        },
{
    lemma_parse_u64_exact(b);
    match spec_parse_u64(b) {
        Ok((count, _)) => {
            lemma_parse_blobs_exact(b.skip(8), count as nat);
            match spec_parse_blobs(b.skip(8), count as nat) {
                Ok((s, used)) => {
                    assert(s.len() as u64 == count);
                    assert(b.take(8) + b.skip(8).take(used) =~= b.take(8 + used));
                },
                Err(_) => {},
            }
        },
        Err(_) => {},
    }
}

proof fn lemma_parse_opt_exact(b: Seq<u8>)
    ensures
        match spec_parse_opt_blob(b) {
            Ok(p) => {
                &&& match p.0 {
                    Some(x) => blob_fits(x),
                    None => true,
                }
                &&& spec_encode_opt_blob(p.0) == b.take(p.1)
                &&& 1 <= p.1 <= b.len()
            },
            Err(_) => true,
        },
{
    if b.len() >= 1 {
        if b[0] == 0 {
            assert(spec_encode_opt_blob(None) =~= b.take(1));
        } else if b[0] == 1 {
            lemma_parse_blob_exact(b.skip(1));
            match spec_parse_blob(b.skip(1)) {
                Ok((x, used)) => {
                    assert(seq![1u8] + b.skip(1).take(used) =~= b.take(1 + used));
                },
                Err(_) => {},
            }
        }
    }
}

/// An input that decodes as a bundle record is exactly the encoding of the
/// record it decodes to: the decoder accepts no other byte stream.
pub proof fn lemma_decoded_record_is_exact_encoding(b: Seq<u8>)
    ensures
        match spec_decode_record(b) {
            Ok(m) => wf_model(m) && spec_encode_record(m) == b,
            Err(_) => true,
        },
{
    lemma_parse_blob_list_exact(b);
    match spec_parse_blob_list(b) {
        Err(_) => {},
        Ok((segments, u1)) => {
            lemma_parse_blob_list_exact(b.skip(u1));
            match spec_parse_blob_list(b.skip(u1)) {
                Err(_) => {},
                Ok((keys, u2)) => {
                    lemma_parse_opt_exact(b.skip(u1 + u2));
                    match spec_parse_opt_blob(b.skip(u1 + u2)) {
                        Err(_) => {},
                        Ok((pv, u3)) => {
                            if u1 + u2 + u3 == b.len() {
                                assert(b.skip(u1).skip(u2) =~= b.skip(u1 + u2));
                                assert(b.take(u1) + b.skip(u1).take(u2) + b.skip(u1 + u2).take(u3)
                                    =~= b);
                            }
                        },
                    }
                },
            }
        },
    }
}

/// An input that decodes as a stand-alone verifying key is exactly the
/// encoding of that key.
pub proof fn lemma_decoded_key_is_exact_encoding(b: Seq<u8>)
    ensures
        match spec_decode_key(b) {
            Ok(k) => blob_fits(k) && spec_encode_key(k) == b,
            Err(_) => true,
        },
{
    lemma_parse_blob_exact(b);
    match spec_parse_blob(b) {
        Ok((k, used)) => {
            if used == b.len() {
                assert(b.take(used) =~= b);
            }
        },
        Err(_) => {},
    }
}

/// Two different inputs never decode to the same record — in particular, an
/// input with any byte changed either fails to decode or hands the
/// verification machine a different bundle.
pub proof fn lemma_decode_record_injective(b1: Seq<u8>, b2: Seq<u8>)
    requires
        spec_decode_record(b1) is Ok,
        spec_decode_record(b1) == spec_decode_record(b2),
    ensures
        b1 == b2,
{
    lemma_decoded_record_is_exact_encoding(b1);
    lemma_decoded_record_is_exact_encoding(b2);
}

// ---------------------------------------------------------------------------
// Truncation: a strict prefix of a well-formed encoding never decodes
// ---------------------------------------------------------------------------
//
// Each parser reads the input left to right and looks only at the bytes it
// consumes, so a successful parse of a prefix is also the unique parse of
// any extension; decoding demands that the whole input is consumed, so a
// strict prefix that decoded would make the full input decode with trailing
// bytes, which it does not.

proof fn lemma_parse_u64_prefix(t: Seq<u8>, b: Seq<u8>)
    requires
        t.is_prefix_of(b),
        spec_parse_u64(t) is Ok,
    ensures
        spec_parse_u64(b) == spec_parse_u64(t),
{
    assert(b.take(8) =~= t.take(8));
}

proof fn lemma_parse_blob_prefix(t: Seq<u8>, b: Seq<u8>)
    requires
        t.is_prefix_of(b),
        spec_parse_blob(t) is Ok,
    ensures
        spec_parse_blob(b) == spec_parse_blob(t),
{
    lemma_parse_u64_prefix(t, b);
    match spec_parse_u64(t) {
        Ok((n, _)) => {
            assert(b.subrange(8, 8 + n as int) =~= t.subrange(8, 8 + n as int));
        },
        Err(_) => {},
    }
}

proof fn lemma_parse_blobs_prefix(t: Seq<u8>, b: Seq<u8>, count: nat)
    requires
        t.is_prefix_of(b),
        spec_parse_blobs(t, count) is Ok,
    ensures
        spec_parse_blobs(b, count) == spec_parse_blobs(t, count),
    decreases count,
{
    if count == 0 {
    } else {
        lemma_parse_blob_prefix(t, b);
        match spec_parse_blob(t) {
            Ok((blob, used)) => {
                assert(0 <= used <= t.len());
                assert(t.skip(used).is_prefix_of(b.skip(used)));
                lemma_parse_blobs_prefix(t.skip(used), b.skip(used), (count - 1) as nat);
            },
            Err(_) => {},
        }
    }
}

proof fn lemma_parse_blob_list_prefix(t: Seq<u8>, b: Seq<u8>)
    requires
        t.is_prefix_of(b),
        spec_parse_blob_list(t) is Ok,
    ensures
        spec_parse_blob_list(b) == spec_parse_blob_list(t),
{
    lemma_parse_u64_prefix(t, b);
    match spec_parse_u64(t) {
        Ok((count, _)) => {
            assert(t.skip(8).is_prefix_of(b.skip(8)));
            lemma_parse_blobs_prefix(t.skip(8), b.skip(8), count as nat);
        },
        Err(_) => {},
    }
}

proof fn lemma_parse_opt_prefix(t: Seq<u8>, b: Seq<u8>)
    requires
        t.is_prefix_of(b),
        spec_parse_opt_blob(t) is Ok,
    ensures
        spec_parse_opt_blob(b) == spec_parse_opt_blob(t),
{
    assert(b[0] == t[0]);
    if t[0] == 1 {
        assert(t.skip(1).is_prefix_of(b.skip(1)));
        lemma_parse_blob_prefix(t.skip(1), b.skip(1));
    }
}

proof fn lemma_parse_blobs_bound(b: Seq<u8>, count: nat)
    ensures
        match spec_parse_blobs(b, count) {
            Ok(p) => 0 <= p.1 <= b.len(),
            Err(_) => true,
        },
    decreases count,
{
    if count == 0 {
    } else {
        match spec_parse_blob(b) {
            Ok((blob, used)) => {
                lemma_parse_blobs_bound(b.skip(used), (count - 1) as nat);
            },
            Err(_) => {},
        }
    }
}

proof fn lemma_parse_blob_list_bound(b: Seq<u8>)
    ensures
        match spec_parse_blob_list(b) {
            Ok(p) => 8 <= p.1 <= b.len(),
            Err(_) => true,
        },
{
    match spec_parse_u64(b) {
        Ok((count, _)) => {
            lemma_parse_blobs_bound(b.skip(8), count as nat);
        },
        Err(_) => {},
    }
}

/// A truncated bundle record is always rejected: cutting any number of
/// bytes off the end of an input that decodes leaves an input that fails
/// to decode.
pub proof fn lemma_truncated_record_rejected(b: Seq<u8>, n: int)
    requires
        spec_decode_record(b) is Ok,
        0 <= n < b.len(),
    ensures
        spec_decode_record(b.take(n)) is Err,
{
    let t = b.take(n);
    if spec_decode_record(t) is Ok {
        assert(t.is_prefix_of(b));
        match spec_parse_blob_list(t) {
            Err(_) => {},
            Ok((segs, u1)) => {
                lemma_parse_blob_list_bound(t);
                lemma_parse_blob_list_prefix(t, b);
                match spec_parse_blob_list(t.skip(u1)) {
                    Err(_) => {},
                    Ok((keys, u2)) => {
                        lemma_parse_blob_list_bound(t.skip(u1));
                        assert(t.skip(u1).is_prefix_of(b.skip(u1)));
                        lemma_parse_blob_list_prefix(t.skip(u1), b.skip(u1));
                        match spec_parse_opt_blob(t.skip(u1 + u2)) {
                            Err(_) => {},
                            Ok((pv, u3)) => {
                                assert(t.skip(u1 + u2).is_prefix_of(b.skip(u1 + u2)));
                                lemma_parse_opt_prefix(t.skip(u1 + u2), b.skip(u1 + u2));
                                // the full input parses to the same three parts,
                                // consuming n < b.len() bytes: trailing bytes
                                assert(u1 + u2 + u3 == n);
                                assert(spec_decode_record(b) == Err::<WireModel, _>(
                                    DecodeError::TrailingBytes,
                                ));
                            },
                        }
                    },
                }
            },
        }
        assert(false);
    }
}

/// A truncated stand-alone verifying key is always rejected.
pub proof fn lemma_truncated_key_rejected(b: Seq<u8>, n: int)
    requires
        spec_decode_key(b) is Ok,
        0 <= n < b.len(),
    ensures
        spec_decode_key(b.take(n)) is Err,
{
    let t = b.take(n);
    if spec_decode_key(t) is Ok {
        assert(t.is_prefix_of(b));
        lemma_parse_blob_prefix(t, b);
        assert(false);
    }
}

// ---------------------------------------------------------------------------
// Executable decoder
// ---------------------------------------------------------------------------

/// Read a little-endian `u64` at `pos`.
fn read_u64(bytes: &[u8], pos: usize) -> (r: Result<(u64, usize), DecodeError>)
    requires
        pos <= bytes@.len(),
    ensures
        match r {
            Ok(p) => {
                &&& spec_parse_u64(bytes@.skip(pos as int)) == Ok::<_, DecodeError>((p.0, 8int))
                &&& p.1 == pos + 8
                &&& p.1 <= bytes@.len()
            },
            Err(e) => spec_parse_u64(bytes@.skip(pos as int)) == Err::<(u64, int), _>(e),
        },
{
    if bytes.len() - pos >= 8 {
        let s = slice_subrange(bytes, pos, pos + 8);
        let v = u64_from_le_bytes(s);
        proof {
            assert(s@ =~= bytes@.skip(pos as int).take(8));
        }
        Ok((v, pos + 8))
    } else {
        Err(DecodeError::UnexpectedEnd)
    }
}

/// Read one framed byte string at `pos`.
fn parse_blob(bytes: &[u8], pos: usize) -> (r: Result<(Vec<u8>, usize), DecodeError>)
    requires
        pos <= bytes@.len(),
    ensures
        match r {
            Ok(p) => {
                &&& spec_parse_blob(bytes@.skip(pos as int)) == Ok::<_, DecodeError>(
                    (p.0@, p.1 - pos as int),
                )
                &&& pos < p.1 <= bytes@.len()
            },
            Err(e) => spec_parse_blob(bytes@.skip(pos as int)) == Err::<(Seq<u8>, int), _>(e),
        },
{
    match read_u64(bytes, pos) {
        Err(e) => Err(e),
        Ok((n, after_len)) => {
            let remaining = bytes.len() - after_len;
            if n <= remaining as u64 {
                let end = after_len + (n as usize);
                let s = slice_subrange(bytes, after_len, end);
                let blob = slice_to_vec(s);
                proof {
                    assert(blob@ =~= bytes@.skip(pos as int).subrange(8, 8 + n as int));
                }
                Ok((blob, end))
            } else {
                Err(DecodeError::UnexpectedEnd)
            }
        },
    }
}

/// Read one optional byte string at `pos`.
fn parse_opt_blob(bytes: &[u8], pos: usize) -> (r: Result<(Option<Vec<u8>>, usize), DecodeError>)
    requires
        pos <= bytes@.len(),
    ensures
        match r {
            Ok(p) => {
                &&& spec_parse_opt_blob(bytes@.skip(pos as int)) == Ok::<_, DecodeError>(
                    (p.0.deep_view(), p.1 - pos as int),
                )
                &&& pos < p.1 <= bytes@.len()
            },
            Err(e) => spec_parse_opt_blob(bytes@.skip(pos as int)) == Err::<
                (Option<Seq<u8>>, int),
                _,
            >(e),
        },
{
    if pos < bytes.len() {
        let marker = *slice_index_get(bytes, pos);
        if marker == 0 {
            Ok((None, pos + 1))
        } else if marker == 1 {
            match parse_blob(bytes, pos + 1) {
                Err(e) => {
                    proof {
                        assert(bytes@.skip(pos as int).skip(1) =~= bytes@.skip(pos as int + 1));
                    }
                    Err(e)
                },
                Ok((blob, end)) => {
                    proof {
                        assert(bytes@.skip(pos as int).skip(1) =~= bytes@.skip(pos as int + 1));
                        assert(blob.deep_view() =~= blob@);
                    }
                    Ok((Some(blob), end))
                },
            }
        } else {
            Err(DecodeError::InvalidOptionTag)
        }
    } else {
        Err(DecodeError::UnexpectedEnd)
    }
}

/// Read a framed list of byte strings at `pos`.
fn parse_blob_list(bytes: &[u8], pos: usize) -> (r: Result<(Vec<Vec<u8>>, usize), DecodeError>)
    requires
        pos <= bytes@.len(),
    ensures
        match r {
            Ok(p) => {
                &&& spec_parse_blob_list(bytes@.skip(pos as int)) == Ok::<_, DecodeError>(
                    (p.0.deep_view(), p.1 - pos as int),
                )
                &&& pos < p.1 <= bytes@.len()
            },
            Err(e) => spec_parse_blob_list(bytes@.skip(pos as int)) == Err::<
                (Seq<Seq<u8>>, int),
                _,
            >(e),
        },
{
    let ghost start: Seq<u8> = bytes@.skip(pos as int);
    match read_u64(bytes, pos) {
        Err(e) => Err(e),
        Ok((count, after_len)) => {
            proof {
                assert(start.skip(8) =~= bytes@.skip(after_len as int));
            }
            let mut acc: Vec<Vec<u8>> = Vec::new();
            let mut i: u64 = 0;
            let mut cur: usize = after_len;
            while i < count
                invariant
                    i <= count,
                    pos + 8 <= cur <= bytes@.len(),
                    acc.deep_view().len() == i,
                    pos <= bytes@.len(),
                    start == bytes@.skip(pos as int),
                    spec_parse_u64(start) == Ok::<_, DecodeError>((count, 8int)),
                    match spec_parse_blobs(bytes@.skip(cur as int), (count - i) as nat) {
                        Ok(p) => spec_parse_blobs(start.skip(8), count as nat) == Ok::<
                            _,
                            DecodeError,
                        >((acc.deep_view() + p.0, cur - (pos + 8) + p.1)),
                        Err(e) => spec_parse_blobs(start.skip(8), count as nat) == Err::<
                            (Seq<Seq<u8>>, int),
                            _,
                        >(e),
                    },
                decreases count - i,
            {
                match parse_blob(bytes, cur) {
                    Err(e) => {
                        return Err(e);
                    },
                    Ok((blob, end)) => {
                        let ghost prev_dv = acc.deep_view();
                        let ghost blob_view = blob@;
                        proof {
                            assert(blob.deep_view() =~= blob@);
                            let used = end - cur as int;
                            assert(bytes@.skip(cur as int).skip(used) =~= bytes@.skip(
                                end as int,
                            ));
                            match spec_parse_blobs(bytes@.skip(end as int), (count - i - 1) as nat) {
                                Ok(p) => {
                                    assert(prev_dv + (seq![blob_view] + p.0) =~= prev_dv.push(
                                        blob_view,
                                    ) + p.0);
                                },
                                Err(_) => {},
                            }
                        }
                        acc.push(blob);
                        proof {
                            assert(acc.deep_view() =~= prev_dv.push(blob_view));
                        }
                        cur = end;
                        i = i + 1;
                    },
                }
            }
            proof {
                assert(acc.deep_view() + Seq::<Seq<u8>>::empty() =~= acc.deep_view());
            }
            Ok((acc, cur))
        },
    }
}

/// Decode a proof-bundle record: the segment list, the key list, and the
/// optional public values, filling the whole input.
pub fn decode_record(bytes: &[u8]) -> (r: Result<WireRecord, DecodeError>)
    ensures
        match r {
            Ok(rec) => spec_decode_record(bytes@) == Ok::<_, DecodeError>(rec@),
            Err(e) => spec_decode_record(bytes@) == Err::<WireModel, _>(e),
        },
{
    proof {
        assert(bytes@.skip(0) =~= bytes@);
    }
    match parse_blob_list(bytes, 0) {
        Err(e) => Err(e),
        Ok((segments, pos1)) => {
            match parse_blob_list(bytes, pos1) {
                Err(e) => Err(e),
                Ok((keys, pos2)) => {
                    match parse_opt_blob(bytes, pos2) {
                        Err(e) => Err(e),
                        Ok((pv, pos3)) => {
                            if pos3 == bytes.len() {
                                Ok(
                                    WireRecord {
                                        segments,
                                        verifying_keys: keys,
                                        public_values: pv,
                                    },
                                )
                            } else {
                                Err(DecodeError::TrailingBytes)
                            }
                        },
                    }
                },
            }
        },
    }
}

/// Decode a stand-alone verifying key: one framed byte string filling the
/// whole input.
pub fn decode_key(bytes: &[u8]) -> (r: Result<Vec<u8>, DecodeError>)
    ensures
        match r {
            Ok(k) => spec_decode_key(bytes@) == Ok::<_, DecodeError>(k@),
            Err(e) => spec_decode_key(bytes@) == Err::<Seq<u8>, _>(e),
        },
{
    proof {
        assert(bytes@.skip(0) =~= bytes@);
    }
    match parse_blob(bytes, 0) {
        Err(e) => Err(e),
        Ok((k, end)) => {
            if end == bytes.len() {
                Ok(k)
            } else {
                Err(DecodeError::TrailingBytes)
            }
        },
    }
}

} // verus!
