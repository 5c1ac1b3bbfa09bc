//! The wire codec: base-128 varints, length-delimited fields, and the
//! canonical encoding of the transport's `Request` and `Response` frames.
//!
//! Encoding is canonical: a field whose value is empty (or zero) is left
//! off the wire, and the decoder accepts exactly the bytes the encoder
//! would produce, so decoding pins the original bytes down completely.

use vstd::prelude::*;

use crate::transport::ErrorCode;
use crate::transport::ErrorEnvelope;
use crate::transport::Request;
use crate::transport::Response;

verus! {

/// The base-128 little-endian encoding of `n`: every byte but the last
/// carries seven payload bits and has its high bit set.
pub open spec fn spec_varint(n: nat) -> Seq<u8>
    decreases n,
{
    if n < 128 {
        seq![n as u8]
    } else {
        seq![(128 + n % 128) as u8] + spec_varint(n / 128)
    }
}

/// Appends the varint encoding of `n` to `out`.
pub fn write_varint(out: &mut Vec<u8>, n: u64)
    ensures
        final(out)@ == old(out)@ + spec_varint(n as nat),
    decreases n,
{
    if n < 128 {
        out.push(n as u8);
    } else {
        out.push((128 + (n % 128)) as u8);
        write_varint(out, n / 128);
        assert(out@ =~= old(out)@ + spec_varint(n as nat));
    }
}

/// Parses one varint from the front of `s`: the value and the number of
/// bytes consumed.  Only minimal encodings are accepted: a continuation
/// byte must be followed by a varint whose value is at least one.
pub open spec fn spec_parse_varint(s: Seq<u8>) -> Option<(nat, int)>
    decreases s.len(),
{
    if s.len() == 0 {
        None
    } else if s[0] < 128 {
        Some((s[0] as nat, 1))
    } else {
        match spec_parse_varint(s.skip(1)) {
            None => None,
            Some((v, k)) => if v >= 1 {
                Some((((s[0] - 128) + 128 * v) as nat, k + 1))
            } else {
                None
            },
        }
    }
}

/// Parsing undoes encoding, whatever follows the encoding.
pub proof fn lemma_parse_of_varint(n: nat, rest: Seq<u8>)
    ensures
        spec_parse_varint(spec_varint(n) + rest) == Some((n, spec_varint(n).len() as int)),
    decreases n,
{
    let s = spec_varint(n) + rest;
    if n < 128 {
        assert(s[0] == n as u8);
    } else {
        assert(s[0] == (128 + n % 128) as u8);
        assert(s.skip(1) =~= spec_varint(n / 128) + rest);
        lemma_parse_of_varint(n / 128, rest);
        assert(n / 128 >= 1) by {
            assert(n >= 128);
        }
        assert((s[0] - 128) + 128 * (n / 128) == n) by {
            assert(n % 128 + 128 * (n / 128) == n) by {
                vstd::arithmetic::div_mod::lemma_fundamental_div_mod(n as int, 128);
            }
        }
    }
}

/// A successful parse pins the consumed bytes down: they are exactly the
/// encoding of the value parsed.
pub proof fn lemma_varint_of_parse(s: Seq<u8>)
    requires
        spec_parse_varint(s) is Some,
    ensures
        1 <= (spec_parse_varint(s)->0).1 <= s.len(),
        spec_varint((spec_parse_varint(s)->0).0) =~= s.take((spec_parse_varint(s)->0).1),
    decreases s.len(),
{
    let (v, k) = spec_parse_varint(s)->0;
    if s[0] < 128 {
        assert(spec_varint(v) =~= seq![s[0]]);
        assert(s.take(1) =~= seq![s[0]]);
    } else {
        let (v2, k2) = spec_parse_varint(s.skip(1))->0;
        lemma_varint_of_parse(s.skip(1));
        assert(v == (s[0] - 128) + 128 * v2);
        assert(v2 >= 1);
        assert(v >= 128) by {
            assert(128 * v2 >= 128) by {
                vstd::arithmetic::mul::lemma_mul_inequality(1, v2 as int, 128);
            }
        }
        assert(v % 128 == s[0] - 128 && v / 128 == v2) by {
            vstd::arithmetic::div_mod::lemma_fundamental_div_mod_converse(
                v as int, 128, v2 as int, (s[0] - 128) as int);
        }
        assert(spec_varint(v) =~= seq![s[0]] + spec_varint(v2));
        assert(s.take(k) =~= seq![s[0]] + s.skip(1).take(k2));
    }
}

/// Reads one varint at position `i` of `s`, returning the value and the
/// position just past it.  Values that do not fit in `u64` are rejected.
pub fn read_varint(s: &Vec<u8>, i: usize) -> (r: Option<(u64, usize)>)
    requires
        i <= s@.len(),
    ensures
        match spec_parse_varint(s@.skip(i as int)) {
            None => r is None,
            Some((v, k)) => if v <= u64::MAX {
                &&& r is Some
                &&& (r->0).0 == v as u64
                &&& (r->0).1 == i + k
            } else {
                r is None
            },
        },
    decreases s@.len() - i,
{
    if i == s.len() {
        return None;
    }
    let b = s[i];
    if b < 128 {
        Some((b as u64, i + 1))
    } else {
        proof {
            assert(s@.skip(i as int)[0] == b);
            assert(s@.skip(i as int).skip(1) =~= s@.skip(i as int + 1));
        }
        match read_varint(s, i + 1) {
            None => {
                proof {
                    let tail = s@.skip(i as int + 1);
                    if spec_parse_varint(tail) is Some {
                        let (v2, k2) = spec_parse_varint(tail)->0;
                        if v2 >= 1 && v2 > u64::MAX {
                            assert(128 * v2 > u64::MAX) by {
                                vstd::arithmetic::mul::lemma_mul_inequality(
                                    v2 as int, 128 * v2 as int, 1);
                                vstd::arithmetic::mul::lemma_mul_is_commutative(128, v2 as int);
                                vstd::arithmetic::mul::lemma_mul_inequality(1, 128, v2 as int);
                            }
                        }
                    }
                }
                None
            },
            Some((v, j)) => {
                if v == 0 {
                    return None;
                }
                if v > (u64::MAX - 127) / 128 {
                    proof {
                        let v2 = v as nat;
                        assert(128 * v2 >= 128 * (((u64::MAX - 127) / 128) + 1)) by {
                            vstd::arithmetic::mul::lemma_mul_inequality(
                                (((u64::MAX - 127) / 128) + 1) as int, v2 as int, 128);
                        }
                        assert((b - 128) + 128 * v2 > u64::MAX);
                    }
                    return None;
                }
                proof {
                    let v2 = v as nat;
                    assert(128 * v2 <= 128 * ((u64::MAX - 127) / 128)) by {
                        vstd::arithmetic::mul::lemma_mul_inequality(
                            v2 as int, ((u64::MAX - 127) / 128) as int, 128);
                    }
                }
                Some(((b - 128) as u64 + 128 * v, j))
            },
        }
    }
}

/// A length-delimited field: tag byte, payload length, payload.
pub open spec fn spec_len_field(tag: u8, payload: Seq<u8>) -> Seq<u8> {
    seq![tag] + spec_varint(payload.len()) + payload
}

/// A length-delimited field that is omitted when its payload is empty.
pub open spec fn spec_opt_field(tag: u8, payload: Seq<u8>) -> Seq<u8> {
    if payload.len() == 0 {
        Seq::empty()
    } else {
        spec_len_field(tag, payload)
    }
}

/// A varint-valued field that is omitted when its value is zero.
pub open spec fn spec_opt_varint_field(tag: u8, v: nat) -> Seq<u8> {
    if v == 0 {
        Seq::empty()
    } else {
        seq![tag] + spec_varint(v)
    }
}

/// The outcome of looking for one field at the front of a byte sequence.
pub enum FieldParse {
    /// The bytes do not start with the wanted tag; no bytes are consumed.
    Absent,
    /// The tag is there but what follows is not a well-formed field.
    Bad,
    /// The field's payload, and how many bytes the whole field took.
    Got(Seq<u8>, int),
}

/// Looks for a length-delimited field with tag `tag` at the front of `s`.
pub open spec fn spec_parse_field(s: Seq<u8>, tag: u8) -> FieldParse {
    if s.len() == 0 || s[0] != tag {
        FieldParse::Absent
    } else {
        match spec_parse_varint(s.skip(1)) {
            None => FieldParse::Bad,
            Some((len, k)) => if 1 + k + len <= s.len() {
                FieldParse::Got(s.subrange(1 + k, 1 + k + len), 1 + k + len)
            } else {
                FieldParse::Bad
            },
        }
    }
}

/// Field parsing undoes field encoding, whatever follows the field.
pub proof fn lemma_parse_of_field(tag: u8, payload: Seq<u8>, rest: Seq<u8>)
    ensures
        spec_parse_field(spec_len_field(tag, payload) + rest, tag) == (FieldParse::Got(
            payload,
            spec_len_field(tag, payload).len() as int,
        )),
{
    let s = spec_len_field(tag, payload) + rest;
    let lv = spec_varint(payload.len());
    assert(s[0] == tag);
    assert(s.skip(1) =~= lv + (payload + rest));
    lemma_parse_of_varint(payload.len(), payload + rest);
    let k = lv.len() as int;
    assert(1 + k + payload.len() <= s.len());
    assert(s.subrange(1 + k, 1 + k + payload.len()) =~= payload);
}

/// A successfully parsed field pins the consumed bytes down: they are
/// exactly the field's encoding.
pub proof fn lemma_field_of_parse(s: Seq<u8>, tag: u8)
    requires
        spec_parse_field(s, tag) is Got,
    ensures
        ({
            let payload = spec_parse_field(s, tag)->Got_0;
            let c = spec_parse_field(s, tag)->Got_1;
            &&& 2 <= c <= s.len()
            &&& spec_len_field(tag, payload) =~= s.take(c)
        }),
{
    let payload = spec_parse_field(s, tag)->Got_0;
    let c = spec_parse_field(s, tag)->Got_1;
    let (len, k) = spec_parse_varint(s.skip(1))->0;
    lemma_varint_of_parse(s.skip(1));
    assert(spec_varint(len) =~= s.skip(1).take(k));
    assert(payload.len() == len);
    assert(s.take(c) =~= seq![tag] + s.skip(1).take(k) + s.subrange(1 + k, 1 + k + len as int));
}

/// What one exec attempt at a field returns.
pub enum FieldRead {
    /// The next field, if any, carries another tag.
    Missing,
    /// The tag is there but the field is broken off or malformed.
    Invalid,
    /// The payload and the position just past the field.
    Value(Vec<u8>, usize),
}

/// Copies `s[from..to]` into a fresh vector.
pub fn copy_range(s: &Vec<u8>, from: usize, to: usize) -> (r: Vec<u8>)
    requires
        from <= to <= s@.len(),
    ensures
        r@ == s@.subrange(from as int, to as int),
{
    let mut out: Vec<u8> = Vec::new();
    let mut i: usize = from;
    while i < to
        invariant
            from <= i <= to <= s@.len(),
            out@ == s@.subrange(from as int, i as int),
        decreases to - i,
    {
        out.push(s[i]);
        i = i + 1;
        assert(out@ =~= s@.subrange(from as int, i as int));
    }
    out
}

/// Reads one length-delimited field with tag `tag` at position `i` of `s`.
pub fn read_field(s: &Vec<u8>, i: usize, tag: u8) -> (r: FieldRead)
    requires
        i <= s@.len(),
    ensures
        match spec_parse_field(s@.skip(i as int), tag) {
            FieldParse::Absent => r is Missing,
            FieldParse::Bad => r is Invalid,
            FieldParse::Got(payload, c) => {
                &&& r is Value
                &&& r->Value_0@ == payload
                &&& r->Value_1 == i + c
            },
        },
{
    let ghost t = s@.skip(i as int);
    if i == s.len() || s[i] != tag {
        return FieldRead::Missing;
    }
    proof {
        assert(t[0] == tag);
        assert(t.skip(1) =~= s@.skip(i as int + 1));
    }
    match read_varint(s, i + 1) {
        None => {
            proof {
                if spec_parse_varint(t.skip(1)) is Some {
                    let (len, k) = spec_parse_varint(t.skip(1))->0;
                    lemma_varint_of_parse(t.skip(1));
                    assert(len > u64::MAX);
                    assert(t.len() <= s@.len() <= usize::MAX);
                    assert(1 + k + len > t.len());
                }
            }
            FieldRead::Invalid
        },
        Some((len, j)) => {
            proof {
                assert(spec_parse_varint(s@.skip(i as int + 1)) is Some);
            }
            let ghost (slen, sk) = spec_parse_varint(t.skip(1))->0;
            proof {
                lemma_varint_of_parse(t.skip(1));
                assert(len == slen && j == i + 1 + sk);
                assert(j <= s@.len());
            }
            if len > (s.len() - j) as u64 {
                proof {
                    assert(1 + sk + slen > t.len());
                }
                FieldRead::Invalid
            } else {
                let end = j + (len as usize);
                let payload = copy_range(s, j, end);
                proof {
                    assert(0 <= 1 + sk && 1 + sk + slen <= t.len());
                    assert(payload@ =~= t.subrange(1 + sk, 1 + sk + slen));
                }
                FieldRead::Value(payload, end)
            }
        },
    }
}

/// The canonical bytes of a `Request`: identifier, service name, method
/// name and payload, each as an optional length-delimited field.
pub open spec fn spec_encode_request(r: Request) -> Seq<u8> {
    spec_opt_field(10, r.id@) + spec_opt_field(18, vstd::utf8::encode_utf8(r.service_name@))
        + spec_opt_field(26, vstd::utf8::encode_utf8(r.method_name@)) + spec_opt_field(
        34,
        r.data@,
    )
}

/// The canonical bytes of a backtrace: one length-delimited field per
/// line, empty lines included.
pub open spec fn spec_encode_backtrace(lines: Seq<String>) -> Seq<u8>
    decreases lines.len(),
{
    if lines.len() == 0 {
        Seq::empty()
    } else {
        spec_len_field(26, vstd::utf8::encode_utf8(lines[0]@)) + spec_encode_backtrace(
            lines.skip(1),
        )
    }
}

/// The canonical bytes of an `ErrorEnvelope`: message, nested cause and
/// backtrace.  A nested cause is framed even when all its fields are
/// empty, so that an empty cause stays distinguishable from no cause.
pub open spec fn spec_encode_envelope(e: ErrorEnvelope) -> Seq<u8>
    decreases e,
{
    spec_opt_field(10, vstd::utf8::encode_utf8(e.message@)) + (match e.cause {
        None => Seq::<u8>::empty(),
        Some(c) => spec_len_field(18, spec_encode_envelope(*c)),
    }) + spec_encode_backtrace(e.backtrace@)
}

/// The canonical bytes of a `Response`: identifier, payload, error code
/// and error envelope.
pub open spec fn spec_encode_response(r: Response) -> Seq<u8> {
    spec_opt_field(10, r.id@) + spec_opt_field(18, r.data@) + spec_opt_varint_field(
        24,
        r.error_code.spec_wire_value(),
    ) + (match r.error {
        None => Seq::<u8>::empty(),
        Some(e) => spec_len_field(34, spec_encode_envelope(e)),
    })
}

/// Appends every byte of `src` to `out`.
pub fn append_bytes(out: &mut Vec<u8>, src: &Vec<u8>)
    ensures
        final(out)@ == old(out)@ + src@,
{
    let mut i: usize = 0;
    while i < src.len()
        invariant
            i <= src@.len(),
            out@ == old(out)@ + src@.take(i as int),
        decreases src@.len() - i,
    {
        out.push(src[i]);
        i = i + 1;
        assert(out@ =~= old(out)@ + src@.take(i as int));
    }
    assert(out@ =~= old(out)@ + src@);
}

/// Appends a length-delimited field, or nothing when the payload is empty.
pub fn write_opt_field(out: &mut Vec<u8>, tag: u8, payload: &Vec<u8>)
    ensures
        final(out)@ == old(out)@ + spec_opt_field(tag, payload@),
{
    if payload.len() == 0 {
        assert(out@ =~= old(out)@ + spec_opt_field(tag, payload@));
        return;
    }
    out.push(tag);
    write_varint(out, payload.len() as u64);
    append_bytes(out, payload);
    assert(out@ =~= old(out)@ + spec_opt_field(tag, payload@));
}

/// Appends a length-delimited field whose payload may be empty.
pub fn write_len_field(out: &mut Vec<u8>, tag: u8, payload: &Vec<u8>)
    ensures
        final(out)@ == old(out)@ + spec_len_field(tag, payload@),
{
    out.push(tag);
    write_varint(out, payload.len() as u64);
    append_bytes(out, payload);
    assert(out@ =~= old(out)@ + spec_len_field(tag, payload@));
}

/// Appends a varint-valued field, or nothing when the value is zero.
pub fn write_opt_varint_field(out: &mut Vec<u8>, tag: u8, v: u64)
    ensures
        final(out)@ == old(out)@ + spec_opt_varint_field(tag, v as nat),
{
    if v == 0 {
        assert(out@ =~= old(out)@ + spec_opt_varint_field(tag, v as nat));
        return;
    }
    out.push(tag);
    write_varint(out, v);
    assert(out@ =~= old(out)@ + spec_opt_varint_field(tag, v as nat));
}

/// Encodes a `Request` into its canonical wire bytes.
pub fn encode_request(r: &Request) -> (out: Vec<u8>)
    ensures
        out@ == spec_encode_request(*r),
{
    let mut out: Vec<u8> = Vec::new();
    write_opt_field(&mut out, 10, &r.id);
    let service_bytes = r.service_name.as_str().as_bytes_vec();
    write_opt_field(&mut out, 18, &service_bytes);
    let method_bytes = r.method_name.as_str().as_bytes_vec();
    write_opt_field(&mut out, 26, &method_bytes);
    write_opt_field(&mut out, 34, &r.data);
    assert(out@ =~= spec_encode_request(*r));
    out
}

/// Encodes an `ErrorEnvelope` into its canonical wire bytes.
pub fn encode_envelope(e: &ErrorEnvelope) -> (out: Vec<u8>)
    ensures
        out@ == spec_encode_envelope(*e),
    decreases *e,
{
    let mut out: Vec<u8> = Vec::new();
    let message_bytes = e.message.as_str().as_bytes_vec();
    write_opt_field(&mut out, 10, &message_bytes);
    match &e.cause {
        None => {},
        Some(c) => {
            let inner = encode_envelope(c);
            write_len_field(&mut out, 18, &inner);
        },
    }
    let mut i: usize = 0;
    while i < e.backtrace.len()
        invariant
            i <= e.backtrace@.len(),
            out@ == spec_opt_field(10, vstd::utf8::encode_utf8(e.message@)) + (match e.cause {
                None => Seq::<u8>::empty(),
                Some(c) => spec_len_field(18, spec_encode_envelope(*c)),
            }) + spec_encode_backtrace(e.backtrace@.take(i as int)),
        decreases e.backtrace@.len() - i,
    {
        let line_bytes = e.backtrace[i].as_str().as_bytes_vec();
        write_len_field(&mut out, 26, &line_bytes);
        i = i + 1;
        proof {
            lemma_encode_backtrace_snoc(e.backtrace@.take(i as int));
            assert(e.backtrace@.take(i as int).drop_last() =~= e.backtrace@.take(i - 1));
            assert(out@ =~= spec_opt_field(10, vstd::utf8::encode_utf8(e.message@)) + (match e
                .cause {
                None => Seq::<u8>::empty(),
                Some(c) => spec_len_field(18, spec_encode_envelope(*c)),
            }) + spec_encode_backtrace(e.backtrace@.take(i as int)));
        }
    }
    proof {
        assert(e.backtrace@.take(e.backtrace@.len() as int) =~= e.backtrace@);
    }
    out
}

/// A backtrace encoding concatenates piecewise.
pub proof fn lemma_encode_backtrace_concat(a: Seq<String>, b: Seq<String>)
    ensures
        spec_encode_backtrace(a + b) =~= spec_encode_backtrace(a) + spec_encode_backtrace(b),
    decreases a.len(),
{
    if a.len() == 0 {
        assert(a + b =~= b);
    } else {
        assert((a + b)[0] == a[0]);
        assert((a + b).skip(1) =~= a.skip(1) + b);
        lemma_encode_backtrace_concat(a.skip(1), b);
        let head = spec_len_field(26, vstd::utf8::encode_utf8(a[0]@));
        assert(head + (spec_encode_backtrace(a.skip(1)) + spec_encode_backtrace(b)) =~= (head
            + spec_encode_backtrace(a.skip(1))) + spec_encode_backtrace(b));
    }
}

/// A backtrace encoding grows at its end, one field per line.
pub proof fn lemma_encode_backtrace_snoc(lines: Seq<String>)
    requires
        lines.len() >= 1,
    ensures
        spec_encode_backtrace(lines) =~= spec_encode_backtrace(lines.drop_last()) + spec_len_field(
            26,
            vstd::utf8::encode_utf8(lines.last()@),
        ),
{
    let single = seq![lines.last()];
    assert(lines =~= lines.drop_last() + single);
    lemma_encode_backtrace_concat(lines.drop_last(), single);
    assert(single.skip(1) =~= Seq::<String>::empty());
    assert(spec_encode_backtrace(Seq::<String>::empty()) == Seq::<u8>::empty());
    assert(single[0] == lines.last());
    assert(spec_encode_backtrace(single) =~= spec_len_field(
        26,
        vstd::utf8::encode_utf8(lines.last()@),
    ));
}

/// Encodes a `Response` into its canonical wire bytes.
pub fn encode_response(r: &Response) -> (out: Vec<u8>)
    ensures
        out@ == spec_encode_response(*r),
{
    let mut out: Vec<u8> = Vec::new();
    write_opt_field(&mut out, 10, &r.id);
    write_opt_field(&mut out, 18, &r.data);
    write_opt_varint_field(&mut out, 24, r.error_code.wire_value());
    match &r.error {
        None => {},
        Some(e) => {
            let inner = encode_envelope(e);
            write_len_field(&mut out, 34, &inner);
        },
    }
    assert(out@ =~= spec_encode_response(*r));
    out
}

/// Parses one optional field whose payload, when the field is there at
/// all, must be non-empty: an empty payload would not have been encoded.
pub open spec fn spec_parse_opt_nonempty(s: Seq<u8>, tag: u8) -> Option<(Seq<u8>, int)> {
    match spec_parse_field(s, tag) {
        FieldParse::Absent => Some((Seq::empty(), 0int)),
        FieldParse::Bad => None,
        FieldParse::Got(p, c) => if p.len() >= 1 {
            Some((p, c))
        } else {
            None
        },
    }
}

/// The raw field payloads of a request, parsed in canonical order.  The
/// whole input must be consumed.
pub open spec fn spec_parse_request(s: Seq<u8>) -> Option<(Seq<u8>, Seq<u8>, Seq<u8>, Seq<u8>)> {
    match spec_parse_opt_nonempty(s, 10) {
        None => None,
        Some((id, c1)) => match spec_parse_opt_nonempty(s.skip(c1), 18) {
            None => None,
            Some((sv, c2)) => match spec_parse_opt_nonempty(s.skip(c1 + c2), 26) {
                None => None,
                Some((mt, c3)) => match spec_parse_opt_nonempty(s.skip(c1 + c2 + c3), 34) {
                    None => None,
                    Some((dt, c4)) => if s.len() == c1 + c2 + c3 + c4 {
                        Some((id, sv, mt, dt))
                    } else {
                        None
                    },
                },
            },
        },
    }
}

/// An optional field parses from its own encoding followed by anything.
pub proof fn lemma_parse_opt_of_encoding(tag: u8, payload: Seq<u8>, rest: Seq<u8>)
    requires
        rest.len() == 0 || rest[0] != tag,
    ensures
        spec_parse_opt_nonempty(spec_opt_field(tag, payload) + rest, tag) == Some(
            (payload, spec_opt_field(tag, payload).len() as int),
        ),
{
    if payload.len() == 0 {
        assert(spec_opt_field(tag, payload) + rest =~= rest);
        assert(payload =~= Seq::<u8>::empty());
    } else {
        lemma_parse_of_field(tag, payload, rest);
    }
}

/// Parsing a request undoes encoding it.
#[verifier::rlimit(80)]
pub proof fn lemma_parse_of_encode_request(r: Request)
    ensures
        spec_parse_request(spec_encode_request(r)) == Some(
            (
                r.id@,
                vstd::utf8::encode_utf8(r.service_name@),
                vstd::utf8::encode_utf8(r.method_name@),
                r.data@,
            ),
        ),
{
    let s = spec_encode_request(r);
    let f1 = spec_opt_field(10, r.id@);
    let f2 = spec_opt_field(18, vstd::utf8::encode_utf8(r.service_name@));
    let f3 = spec_opt_field(26, vstd::utf8::encode_utf8(r.method_name@));
    let f4 = spec_opt_field(34, r.data@);
    assert(s =~= f1 + (f2 + (f3 + (f4 + Seq::<u8>::empty()))));
    let r2 = f2 + (f3 + (f4 + Seq::<u8>::empty()));
    let r3 = f3 + (f4 + Seq::<u8>::empty());
    let r4 = f4 + Seq::<u8>::empty();
    assert(r2.len() == 0 || r2[0] != 10);
    lemma_parse_opt_of_encoding(10, r.id@, r2);
    assert(s.skip(f1.len() as int) =~= r2);
    assert(r3.len() == 0 || r3[0] != 18);
    lemma_parse_opt_of_encoding(18, vstd::utf8::encode_utf8(r.service_name@), r3);
    assert(s.skip(f1.len() + f2.len() as int) =~= r3);
    assert(r4.len() == 0 || r4[0] != 26);
    lemma_parse_opt_of_encoding(26, vstd::utf8::encode_utf8(r.method_name@), r4);
    assert(s.skip(f1.len() + f2.len() + f3.len() as int) =~= r4);
    lemma_parse_opt_of_encoding(34, r.data@, Seq::empty());
    assert(s.len() == f1.len() + f2.len() + f3.len() + f4.len());
}

/// A parsed request pins the input bytes down: they are exactly the
/// canonical encoding of the parsed payloads.
#[verifier::rlimit(80)]
pub proof fn lemma_encode_of_parse_request(s: Seq<u8>)
    requires
        spec_parse_request(s) is Some,
    ensures
        ({
            let (id, sv, mt, dt) = spec_parse_request(s)->0;
            s =~= spec_opt_field(10, id) + spec_opt_field(18, sv) + spec_opt_field(26, mt)
                + spec_opt_field(34, dt)
        }),
{
    let (id, c1) = spec_parse_opt_nonempty(s, 10)->0;
    let (sv, c2) = spec_parse_opt_nonempty(s.skip(c1), 18)->0;
    let (mt, c3) = spec_parse_opt_nonempty(s.skip(c1 + c2), 26)->0;
    let (dt, c4) = spec_parse_opt_nonempty(s.skip(c1 + c2 + c3), 34)->0;
    lemma_opt_nonempty_canonical(s, 10);
    lemma_opt_nonempty_canonical(s.skip(c1), 18);
    lemma_opt_nonempty_canonical(s.skip(c1 + c2), 26);
    lemma_opt_nonempty_canonical(s.skip(c1 + c2 + c3), 34);
    assert(s.skip(c1).skip(c2) =~= s.skip(c1 + c2));
    assert(s.skip(c1 + c2).skip(c3) =~= s.skip(c1 + c2 + c3));
    assert(s =~= s.take(c1) + (s.skip(c1).take(c2) + (s.skip(c1 + c2).take(c3) + s.skip(
        c1 + c2 + c3,
    ).take(c4))));
}

/// One successfully parsed optional field is exactly its re-encoding.
pub proof fn lemma_opt_nonempty_canonical(s: Seq<u8>, tag: u8)
    requires
        spec_parse_opt_nonempty(s, tag) is Some,
    ensures
        ({
            let (p, c) = spec_parse_opt_nonempty(s, tag)->0;
            &&& 0 <= c <= s.len()
            &&& spec_opt_field(tag, p) =~= s.take(c)
        }),
{
    let (p, c) = spec_parse_opt_nonempty(s, tag)->0;
    match spec_parse_field(s, tag) {
        FieldParse::Absent => {
            assert(s.take(0) =~= Seq::<u8>::empty());
        },
        FieldParse::Bad => {},
        FieldParse::Got(_, _) => {
            lemma_field_of_parse(s, tag);
        },
    }
}

/// Relies on std's `String::from_utf8`: it returns the string over exactly
/// the given bytes when they are valid UTF-8, and an error otherwise.
#[verifier::external_body]
pub(crate) fn bytes_to_string(v: Vec<u8>) -> (r: Option<String>)
    ensures
        r is Some <==> vstd::utf8::valid_utf8(v@),
        r is Some ==> vstd::utf8::encode_utf8((r->0)@) == v@,
{
    String::from_utf8(v).ok()
}

/// The exec mirror of one `spec_parse_opt_nonempty` step: the payload (or
/// an empty vector when the field is absent) and the position just past it.
pub fn read_opt_nonempty(s: &Vec<u8>, i: usize, tag: u8) -> (r: Option<(Vec<u8>, usize)>)
    requires
        i <= s@.len(),
    ensures
        match spec_parse_opt_nonempty(s@.skip(i as int), tag) {
            None => r is None,
            Some((p, c)) => {
                &&& r is Some
                &&& (r->0).0@ == p
                &&& i <= (r->0).1 <= s@.len()
                &&& (r->0).1 == i + c
            },
        },
{
    proof {
        if spec_parse_opt_nonempty(s@.skip(i as int), tag) is Some {
            lemma_opt_nonempty_canonical(s@.skip(i as int), tag);
        }
    }
    match read_field(s, i, tag) {
        FieldRead::Missing => Some((Vec::new(), i)),
        FieldRead::Invalid => None,
        FieldRead::Value(p, j) => {
            if p.len() == 0 {
                None
            } else {
                Some((p, j))
            }
        },
    }
}

/// Decodes a request from its canonical wire bytes.  Returns the request
/// whose encoding is exactly `s`, or nothing when no request encodes to
/// `s`.
pub fn decode_request(s: &Vec<u8>) -> (r: Option<Request>)
    ensures
        match r {
            Some(m) => spec_encode_request(m) == s@,
            None => forall|m: Request| spec_encode_request(m) != s@,
        },
{
    proof {
        assert(s@.skip(0) =~= s@);
        assert forall|m: Request| spec_parse_request(spec_encode_request(m)) is Some by {
            lemma_parse_of_encode_request(m);
        }
    }
    let r = decode_request_fields(s);
    match r {
        None => {
            assert(forall|m: Request| spec_encode_request(m) != s@);
            None
        },
        Some((id, svb, mtb, dt)) => {
            let ghost parsed = spec_parse_request(s@)->0;
            proof {
                assert forall|m: Request| spec_encode_request(m) == s@ implies vstd::utf8::valid_utf8(
                    svb@,
                ) && vstd::utf8::valid_utf8(mtb@) by {
                    lemma_parse_of_encode_request(m);
                    vstd::utf8::encode_utf8_valid_utf8(m.service_name@);
                    vstd::utf8::encode_utf8_valid_utf8(m.method_name@);
                }
            }
            let service_name = match bytes_to_string(svb) {
                Some(x) => x,
                None => {
                    return None;
                },
            };
            let method_name = match bytes_to_string(mtb) {
                Some(x) => x,
                None => {
                    return None;
                },
            };
            let m = Request { id, service_name, method_name, data: dt };
            proof {
                lemma_encode_of_parse_request(s@);
                assert(spec_encode_request(m) =~= s@);
            }
            Some(m)
        },
    }
}

/// Reads the four raw request fields in canonical order, checking that
/// the input is consumed completely.
fn decode_request_fields(s: &Vec<u8>) -> (r: Option<(Vec<u8>, Vec<u8>, Vec<u8>, Vec<u8>)>)
    ensures
        match spec_parse_request(s@) {
            None => r is None,
            Some((id, sv, mt, dt)) => {
                &&& r is Some
                &&& (r->0).0@ == id
                &&& (r->0).1@ == sv
                &&& (r->0).2@ == mt
                &&& (r->0).3@ == dt
            },
        },
{
    proof {
        assert(s@.skip(0) =~= s@);
    }
    let (id, p1) = match read_opt_nonempty(s, 0, 10) {
        None => {
            return None;
        },
        Some(x) => x,
    };
    let (sv, p2) = match read_opt_nonempty(s, p1, 18) {
        None => {
            return None;
        },
        Some(x) => x,
    };
    proof {
        assert(s@.skip(0).skip(p1 as int) =~= s@.skip(p1 as int));
    }
    let (mt, p3) = match read_opt_nonempty(s, p2, 26) {
        None => {
            return None;
        },
        Some(x) => x,
    };
    proof {
        assert(s@.skip(p1 as int).skip(p2 - p1) =~= s@.skip(p2 as int));
    }
    let (dt, p4) = match read_opt_nonempty(s, p3, 34) {
        None => {
            return None;
        },
        Some(x) => x,
    };
    proof {
        assert(s@.skip(p2 as int).skip(p3 - p2) =~= s@.skip(p3 as int));
    }
    if p4 != s.len() {
        return None;
    }
    Some((id, sv, mt, dt))
}

/// The raw byte payloads of an error envelope, the ghost mirror of
/// `ErrorEnvelope` that parsing produces before UTF-8 conversion.
pub struct EnvParts {
    /// The message field's UTF-8 bytes.
    pub message: Seq<u8>,
    /// The nested cause, when one is framed.
    pub cause: Option<Box<EnvParts>>,
    /// The backtrace lines' UTF-8 bytes.
    pub backtrace: Seq<Seq<u8>>,
}

/// The UTF-8 bytes of a sequence of strings, element by element.
pub open spec fn utf8_of_strings(ss: Seq<String>) -> Seq<Seq<u8>> {
    ss.map_values(|s: String| vstd::utf8::encode_utf8(s@))
}

/// The raw parts that an envelope puts on the wire.
pub open spec fn env_parts_of(e: ErrorEnvelope) -> EnvParts
    decreases e,
{
    EnvParts {
        message: vstd::utf8::encode_utf8(e.message@),
        cause: match e.cause {
            None => None,
            Some(c) => Some(Box::new(env_parts_of(*c))),
        },
        backtrace: utf8_of_strings(e.backtrace@),
    }
}

/// The canonical bytes of raw backtrace lines.
pub open spec fn spec_encode_backtrace_bytes(bs: Seq<Seq<u8>>) -> Seq<u8>
    decreases bs.len(),
{
    if bs.len() == 0 {
        Seq::empty()
    } else {
        spec_len_field(26, bs[0]) + spec_encode_backtrace_bytes(bs.skip(1))
    }
}

/// The canonical bytes of raw envelope parts.
pub open spec fn spec_encode_env_parts(p: EnvParts) -> Seq<u8>
    decreases p,
{
    spec_opt_field(10, p.message) + (match p.cause {
        None => Seq::<u8>::empty(),
        Some(c) => spec_len_field(18, spec_encode_env_parts(*c)),
    }) + spec_encode_backtrace_bytes(p.backtrace)
}

/// An envelope encodes as its raw parts do.
pub proof fn lemma_encode_envelope_as_parts(e: ErrorEnvelope)
    ensures
        spec_encode_envelope(e) == spec_encode_env_parts(env_parts_of(e)),
    decreases e,
{
    match e.cause {
        None => {},
        Some(c) => lemma_encode_envelope_as_parts(*c),
    }
    lemma_encode_backtrace_as_bytes(e.backtrace@);
}

/// A backtrace encodes as its raw lines do.
pub proof fn lemma_encode_backtrace_as_bytes(lines: Seq<String>)
    ensures
        spec_encode_backtrace(lines) == spec_encode_backtrace_bytes(utf8_of_strings(lines)),
    decreases lines.len(),
{
    if lines.len() == 0 {
        assert(utf8_of_strings(lines).len() == 0);
    } else {
        lemma_encode_backtrace_as_bytes(lines.skip(1));
        assert(utf8_of_strings(lines).skip(1) =~= utf8_of_strings(lines.skip(1)));
        assert(utf8_of_strings(lines)[0] == vstd::utf8::encode_utf8(lines[0]@));
    }
}

/// Parses the run of backtrace fields at the front of `s`: the raw lines
/// and the bytes consumed.
pub open spec fn spec_parse_backtrace(s: Seq<u8>) -> Option<(Seq<Seq<u8>>, int)>
    decreases s.len(),
    via spec_parse_backtrace_decreases
{
    match spec_parse_field(s, 26) {
        FieldParse::Absent => Some((Seq::empty(), 0int)),
        FieldParse::Bad => None,
        FieldParse::Got(p, c) => match spec_parse_backtrace(s.skip(c)) {
            None => None,
            Some((rest, c2)) => Some((seq![p] + rest, c + c2)),
        },
    }
}

#[via_fn]
proof fn spec_parse_backtrace_decreases(s: Seq<u8>) {
    match spec_parse_field(s, 26) {
        FieldParse::Absent => {},
        FieldParse::Bad => {},
        FieldParse::Got(p, c) => {
            lemma_field_of_parse(s, 26);
        },
    }
}

/// Parses an envelope from exactly the whole of `s`.
pub open spec fn spec_parse_envelope(s: Seq<u8>) -> Option<EnvParts>
    decreases s.len(),
    via spec_parse_envelope_decreases
{
    match spec_parse_opt_nonempty(s, 10) {
        None => None,
        Some((msg, c1)) => match spec_parse_field(s.skip(c1), 18) {
            FieldParse::Bad => None,
            FieldParse::Absent => match spec_parse_backtrace(s.skip(c1)) {
                None => None,
                Some((bt, c3)) => if s.len() == c1 + c3 {
                    Some((EnvParts { message: msg, cause: None, backtrace: bt }))
                } else {
                    None
                },
            },
            FieldParse::Got(p, c2) => match spec_parse_envelope(p) {
                None => None,
                Some(inner) => match spec_parse_backtrace(s.skip(c1 + c2)) {
                    None => None,
                    Some((bt, c3)) => if s.len() == c1 + c2 + c3 {
                        Some(
                            (EnvParts {
                                message: msg,
                                cause: Some(Box::new(inner)),
                                backtrace: bt,
                            }),
                        )
                    } else {
                        None
                    },
                },
            },
        },
    }
}

#[via_fn]
proof fn spec_parse_envelope_decreases(s: Seq<u8>) {
    match spec_parse_opt_nonempty(s, 10) {
        None => {},
        Some((msg, c1)) => {
            lemma_opt_nonempty_canonical(s, 10);
            match spec_parse_field(s.skip(c1), 18) {
                FieldParse::Bad => {},
                FieldParse::Absent => {},
                FieldParse::Got(p, c2) => {
                    lemma_field_of_parse(s.skip(c1), 18);
                    lemma_varint_of_parse(s.skip(c1).skip(1));
                    assert(p.len() < s.len());
                },
            }
        },
    }
}

/// Parsing a backtrace undoes encoding it.
pub proof fn lemma_parse_of_encode_backtrace(bs: Seq<Seq<u8>>)
    ensures
        spec_parse_backtrace(spec_encode_backtrace_bytes(bs)) == Some(
            (bs, spec_encode_backtrace_bytes(bs).len() as int),
        ),
    decreases bs.len(),
{
    let s = spec_encode_backtrace_bytes(bs);
    if bs.len() == 0 {
        assert(s.len() == 0);
        assert(bs =~= Seq::<Seq<u8>>::empty());
    } else {
        let rest = spec_encode_backtrace_bytes(bs.skip(1));
        assert(s =~= spec_len_field(26, bs[0]) + rest);
        lemma_parse_of_field(26, bs[0], rest);
        let c = spec_len_field(26, bs[0]).len() as int;
        assert(s.skip(c) =~= rest);
        lemma_parse_of_encode_backtrace(bs.skip(1));
        assert(seq![bs[0]] + bs.skip(1) =~= bs);
    }
}

/// A parsed backtrace pins the consumed bytes down.
pub proof fn lemma_encode_of_parse_backtrace(s: Seq<u8>)
    requires
        spec_parse_backtrace(s) is Some,
    ensures
        ({
            let (bs, c) = spec_parse_backtrace(s)->0;
            &&& 0 <= c <= s.len()
            &&& spec_encode_backtrace_bytes(bs) =~= s.take(c)
        }),
    decreases s.len(),
{
    let (bs, c) = spec_parse_backtrace(s)->0;
    match spec_parse_field(s, 26) {
        FieldParse::Absent => {
            assert(s.take(0) =~= Seq::<u8>::empty());
            assert(bs.len() == 0);
        },
        FieldParse::Bad => {},
        FieldParse::Got(p, c1) => {
            lemma_field_of_parse(s, 26);
            lemma_encode_of_parse_backtrace(s.skip(c1));
            let (rest, c2) = spec_parse_backtrace(s.skip(c1))->0;
            assert((seq![p] + rest).skip(1) =~= rest);
            assert((seq![p] + rest)[0] == p);
            assert(s.take(c) =~= s.take(c1) + s.skip(c1).take(c2));
        },
    }
}

/// Parsing an envelope undoes encoding it.
pub proof fn lemma_parse_of_encode_envelope(e: ErrorEnvelope)
    ensures
        spec_parse_envelope(spec_encode_envelope(e)) == Some(env_parts_of(e)),
    decreases e,
{
    let s = spec_encode_envelope(e);
    let msg = vstd::utf8::encode_utf8(e.message@);
    let f1 = spec_opt_field(10, msg);
    let f2 = match e.cause {
        None => Seq::<u8>::empty(),
        Some(c) => spec_len_field(18, spec_encode_envelope(*c)),
    };
    let f3 = spec_encode_backtrace(e.backtrace@);
    lemma_encode_backtrace_as_bytes(e.backtrace@);
    let bt = utf8_of_strings(e.backtrace@);
    assert(f3 == spec_encode_backtrace_bytes(bt));
    if bt.len() >= 1 {
        assert(f3[0] == 26);
    } else {
        assert(f3.len() == 0);
    }
    assert(s =~= f1 + (f2 + f3));
    let rest1 = f2 + f3;
    assert(rest1.len() == 0 || rest1[0] != 10);
    lemma_parse_opt_of_encoding(10, msg, rest1);
    assert(s.skip(f1.len() as int) =~= rest1);
    match e.cause {
        None => {
            assert(rest1 =~= f3);
            assert(rest1.len() == 0 || rest1[0] != 18);
            lemma_parse_of_encode_backtrace(bt);
            assert(s.len() == f1.len() + f3.len());
        },
        Some(c) => {
            lemma_parse_of_field(18, spec_encode_envelope(*c), f3);
            lemma_parse_of_encode_envelope(*c);
            assert(rest1.skip(f2.len() as int) =~= f3);
            assert(s.skip(f1.len() + f2.len() as int) =~= f3);
            lemma_parse_of_encode_backtrace(bt);
            assert(s.len() == f1.len() + f2.len() + f3.len());
        },
    }
}

/// A parsed envelope pins the input bytes down: they are exactly the
/// canonical encoding of the parsed parts.
#[verifier::rlimit(80)]
pub proof fn lemma_encode_of_parse_envelope(s: Seq<u8>)
    requires
        spec_parse_envelope(s) is Some,
    ensures
        spec_encode_env_parts(spec_parse_envelope(s)->0) =~= s,
    decreases s.len(),
{
    let parts = spec_parse_envelope(s)->0;
    let (msg, c1) = spec_parse_opt_nonempty(s, 10)->0;
    lemma_opt_nonempty_canonical(s, 10);
    match spec_parse_field(s.skip(c1), 18) {
        FieldParse::Bad => {},
        FieldParse::Absent => {
            let (bt, c3) = spec_parse_backtrace(s.skip(c1))->0;
            lemma_encode_of_parse_backtrace(s.skip(c1));
            assert(s =~= s.take(c1) + s.skip(c1).take(c3));
        },
        FieldParse::Got(p, c2) => {
            lemma_field_of_parse(s.skip(c1), 18);
            lemma_varint_of_parse(s.skip(c1).skip(1));
            assert(p.len() < s.len());
            lemma_encode_of_parse_envelope(p);
            let (bt, c3) = spec_parse_backtrace(s.skip(c1 + c2))->0;
            assert(s.skip(c1).skip(c2) =~= s.skip(c1 + c2));
            lemma_encode_of_parse_backtrace(s.skip(c1 + c2));
            assert(spec_len_field(18, spec_encode_env_parts(*parts.cause->0)) =~= s.skip(
                c1,
            ).take(c2));
            assert(s =~= s.take(c1) + (s.skip(c1).take(c2) + s.skip(c1 + c2).take(c3)));
        },
    }
}

/// Reads the run of backtrace fields at position `i`, converting each
/// line to a string.
fn decode_backtrace(s: &Vec<u8>, i: usize) -> (r: Option<(Vec<String>, usize)>)
    requires
        i <= s@.len(),
    ensures
        r is Some ==> {
            &&& spec_parse_backtrace(s@.skip(i as int)) is Some
            &&& utf8_of_strings((r->0).0@) == (spec_parse_backtrace(s@.skip(i as int))->0).0
            &&& (r->0).1 == i + (spec_parse_backtrace(s@.skip(i as int))->0).1
            &&& i <= (r->0).1 <= s@.len()
        },
        r is None ==> (spec_parse_backtrace(s@.skip(i as int)) is None || exists|j: int|
            0 <= j < (spec_parse_backtrace(s@.skip(i as int))->0).0.len()
                && !vstd::utf8::valid_utf8(
                #[trigger] (spec_parse_backtrace(s@.skip(i as int))->0).0[j],
            )),
    decreases s@.len() - i,
{
    let ghost t = s@.skip(i as int);
    match read_field(s, i, 26) {
        FieldRead::Missing => {
            proof {
                assert(utf8_of_strings(Seq::<String>::empty()) =~= Seq::<Seq<u8>>::empty());
            }
            Some((Vec::new(), i))
        },
        FieldRead::Invalid => None,
        FieldRead::Value(p, j) => {
            proof {
                lemma_field_of_parse(t, 26);
                assert(t.skip(j - i) =~= s@.skip(j as int));
            }
            let ghost c1 = j - i;
            let ghost bs_all = (spec_parse_backtrace(t)->0).0;
            let line = match bytes_to_string(p) {
                None => {
                    proof {
                        if spec_parse_backtrace(s@.skip(j as int)) is Some {
                            let (rest, c2) = spec_parse_backtrace(s@.skip(j as int))->0;
                            assert(bs_all == seq![p@] + rest);
                            assert(bs_all[0] == p@);
                            assert(!vstd::utf8::valid_utf8(bs_all[0]));
                        }
                    }
                    return None;
                },
                Some(x) => x,
            };
            match decode_backtrace(s, j) {
                None => {
                    proof {
                        let u = s@.skip(j as int);
                        if spec_parse_backtrace(u) is Some {
                            let (rest, c2) = spec_parse_backtrace(u)->0;
                            assert(bs_all == seq![p@] + rest);
                            let j0 = choose|j0: int|
                                0 <= j0 < rest.len() && !vstd::utf8::valid_utf8(#[trigger] rest[j0]);
                            assert(bs_all[j0 + 1] == rest[j0]);
                        }
                    }
                    None
                },
                Some((rest_lines, end)) => {
                    let mut out: Vec<String> = Vec::new();
                    out.push(line);
                    let mut rest_lines = rest_lines;
                    out.append(&mut rest_lines);
                    proof {
                        let u = s@.skip(j as int);
                        let (rest, c2) = spec_parse_backtrace(u)->0;
                        assert(bs_all == seq![p@] + rest);
                        assert(utf8_of_strings(out@) =~= seq![p@] + rest);
                    }
                    Some((out, end))
                },
            }
        },
    }
}

/// Decodes an error envelope from its canonical wire bytes.  Returns the
/// envelope whose encoding is exactly `s`, or nothing when no envelope
/// encodes to `s`.
pub fn decode_envelope(s: &Vec<u8>) -> (r: Option<ErrorEnvelope>)
    ensures
        match r {
            Some(e) => spec_encode_envelope(e) == s@,
            None => forall|e: ErrorEnvelope| spec_encode_envelope(e) != s@,
        },
    decreases s@.len(),
{
    proof {
        assert(s@.skip(0) =~= s@);
        assert forall|e: ErrorEnvelope| spec_encode_envelope(e) == s@ implies spec_parse_envelope(
            s@,
        ) == Some(env_parts_of(e)) by {
            lemma_parse_of_encode_envelope(e);
        }
    }
    let (msgb, p1) = match read_opt_nonempty(s, 0, 10) {
        None => {
            return None;
        },
        Some(x) => x,
    };
    let ghost msgb_view = msgb@;
    let message = match bytes_to_string(msgb) {
        None => {
            proof {
                assert forall|e: ErrorEnvelope| spec_encode_envelope(e) != s@ by {
                    if spec_encode_envelope(e) == s@ {
                        lemma_parse_of_encode_envelope(e);
                        vstd::utf8::encode_utf8_valid_utf8(e.message@);
                    }
                }
            }
            return None;
        },
        Some(x) => x,
    };
    let (cause, p2) = match read_field(s, p1, 18) {
        FieldRead::Invalid => {
            return None;
        },
        FieldRead::Missing => (None, p1),
        FieldRead::Value(p, j) => {
            proof {
                lemma_field_of_parse(s@.skip(p1 as int), 18);
                lemma_varint_of_parse(s@.skip(p1 as int).skip(1));
                assert(p@.len() < s@.len());
            }
            match decode_envelope(&p) {
                None => {
                    proof {
                        assert forall|e: ErrorEnvelope| spec_encode_envelope(e) != s@ by {
                            if spec_encode_envelope(e) == s@ {
                                lemma_parse_of_encode_envelope(e);
                                let inner = spec_parse_envelope(p@)->0;
                                lemma_encode_of_parse_envelope(p@);
                                let c = *e.cause->0;
                                assert(inner == env_parts_of(c));
                                lemma_encode_envelope_as_parts(c);
                                assert(spec_encode_envelope(c) == p@);
                            }
                        }
                    }
                    return None;
                },
                Some(inner_env) => {
                    proof {
                        lemma_parse_of_encode_envelope(inner_env);
                    }
                    (Some(Box::new(inner_env)), j)
                },
            }
        },
    };
    let (backtrace, p3) = match decode_backtrace(s, p2) {
        None => {
            proof {
                assert(s@.skip(p1 as int).skip(p2 - p1) =~= s@.skip(p2 as int));
                assert forall|e: ErrorEnvelope| spec_encode_envelope(e) != s@ by {
                    if spec_encode_envelope(e) == s@ {
                        lemma_parse_of_encode_envelope(e);
                        let bs = (spec_parse_backtrace(s@.skip(p2 as int))->0).0;
                        assert(bs == utf8_of_strings(e.backtrace@));
                        if spec_parse_backtrace(s@.skip(p2 as int)) is Some {
                            let j0 = choose|j0: int|
                                0 <= j0 < bs.len() && !vstd::utf8::valid_utf8(#[trigger] bs[j0]);
                            assert(bs[j0] == vstd::utf8::encode_utf8(e.backtrace@[j0]@));
                            vstd::utf8::encode_utf8_valid_utf8(e.backtrace@[j0]@);
                        }
                    }
                }
            }
            return None;
        },
        Some(x) => x,
    };
    proof {
        assert(s@.skip(p1 as int).skip(p2 - p1) =~= s@.skip(p2 as int));
    }
    if p3 != s.len() {
        proof {
            assert forall|e: ErrorEnvelope| spec_encode_envelope(e) != s@ by {
                if spec_encode_envelope(e) == s@ {
                    lemma_parse_of_encode_envelope(e);
                }
            }
        }
        return None;
    }
    let result = ErrorEnvelope { message, cause, backtrace };
    proof {
        assert(spec_parse_envelope(s@) == Some(env_parts_of(result)));
        lemma_encode_of_parse_envelope(s@);
        lemma_encode_envelope_as_parts(result);
        assert(spec_encode_envelope(result) == s@);
    }
    Some(result)
}

/// Parses one optional varint-valued field: the value (zero when the
/// field is absent) and the bytes consumed.  An explicit zero is rejected,
/// since a zero value is never encoded.
pub open spec fn spec_parse_opt_code(s: Seq<u8>, tag: u8) -> Option<(nat, int)> {
    if s.len() == 0 || s[0] != tag {
        Some((0 as nat, 0int))
    } else {
        match spec_parse_varint(s.skip(1)) {
            None => None,
            Some((v, k)) => if v >= 1 {
                Some((v, 1 + k))
            } else {
                None
            },
        }
    }
}

/// An optional varint field parses from its own encoding followed by
/// anything that does not start with its tag.
pub proof fn lemma_parse_opt_code_of_encoding(tag: u8, v: nat, rest: Seq<u8>)
    requires
        rest.len() == 0 || rest[0] != tag,
    ensures
        spec_parse_opt_code(spec_opt_varint_field(tag, v) + rest, tag) == Some(
            (v, spec_opt_varint_field(tag, v).len() as int),
        ),
{
    if v == 0 {
        assert(spec_opt_varint_field(tag, v) + rest =~= rest);
    } else {
        let s = spec_opt_varint_field(tag, v) + rest;
        assert(s[0] == tag);
        assert(s.skip(1) =~= spec_varint(v) + rest);
        lemma_parse_of_varint(v, rest);
    }
}

/// One successfully parsed optional varint field is exactly its
/// re-encoding.
pub proof fn lemma_opt_code_canonical(s: Seq<u8>, tag: u8)
    requires
        spec_parse_opt_code(s, tag) is Some,
    ensures
        ({
            let (v, c) = spec_parse_opt_code(s, tag)->0;
            &&& 0 <= c <= s.len()
            &&& spec_opt_varint_field(tag, v) =~= s.take(c)
        }),
{
    let (v, c) = spec_parse_opt_code(s, tag)->0;
    if s.len() == 0 || s[0] != tag {
        assert(s.take(0) =~= Seq::<u8>::empty());
    } else {
        lemma_varint_of_parse(s.skip(1));
        let (v2, k) = spec_parse_varint(s.skip(1))->0;
        assert(s.take(c) =~= seq![tag] + s.skip(1).take(k));
    }
}

/// The exec mirror of one `spec_parse_opt_code` step.
fn read_opt_code(s: &Vec<u8>, i: usize, tag: u8) -> (r: Option<(u64, usize)>)
    requires
        i <= s@.len(),
    ensures
        match spec_parse_opt_code(s@.skip(i as int), tag) {
            None => r is None,
            Some((v, c)) => if v <= u64::MAX {
                &&& r is Some
                &&& (r->0).0 == v as u64
                &&& (r->0).1 == i + c
                &&& i <= (r->0).1 <= s@.len()
            } else {
                r is None
            },
        },
{
    let ghost t = s@.skip(i as int);
    if i == s.len() || s[i] != tag {
        return Some((0, i));
    }
    proof {
        assert(t[0] == tag);
        assert(t.skip(1) =~= s@.skip(i as int + 1));
    }
    match read_varint(s, i + 1) {
        None => None,
        Some((v, j)) => {
            if v == 0 {
                None
            } else {
                proof {
                    lemma_varint_of_parse(t.skip(1));
                }
                Some((v, j))
            }
        },
    }
}

/// The raw fields of a response, parsed in canonical order.  The whole
/// input must be consumed.
pub open spec fn spec_parse_response(s: Seq<u8>) -> Option<
    (Seq<u8>, Seq<u8>, nat, Option<EnvParts>),
> {
    match spec_parse_opt_nonempty(s, 10) {
        None => None,
        Some((id, c1)) => match spec_parse_opt_nonempty(s.skip(c1), 18) {
            None => None,
            Some((dt, c2)) => match spec_parse_opt_code(s.skip(c1 + c2), 24) {
                None => None,
                Some((v, c3)) => match spec_parse_field(s.skip(c1 + c2 + c3), 34) {
                    FieldParse::Bad => None,
                    FieldParse::Absent => if s.len() == c1 + c2 + c3 {
                        Some((id, dt, v, None))
                    } else {
                        None
                    },
                    FieldParse::Got(p, c4) => match spec_parse_envelope(p) {
                        None => None,
                        Some(parts) => if s.len() == c1 + c2 + c3 + c4 {
                            Some((id, dt, v, Some(parts)))
                        } else {
                            None
                        },
                    },
                },
            },
        },
    }
}

/// Parsing a response undoes encoding it.
#[verifier::rlimit(80)]
pub proof fn lemma_parse_of_encode_response(m: Response)
    ensures
        spec_parse_response(spec_encode_response(m)) == Some(
            (
                m.id@,
                m.data@,
                m.error_code.spec_wire_value(),
                match m.error {
                    None => None,
                    Some(e) => Some(env_parts_of(e)),
                },
            ),
        ),
{
    let s = spec_encode_response(m);
    let f1 = spec_opt_field(10, m.id@);
    let f2 = spec_opt_field(18, m.data@);
    let f3 = spec_opt_varint_field(24, m.error_code.spec_wire_value());
    let f4 = match m.error {
        None => Seq::<u8>::empty(),
        Some(e) => spec_len_field(34, spec_encode_envelope(e)),
    };
    assert(s =~= f1 + (f2 + (f3 + f4)));
    let r2 = f2 + (f3 + f4);
    let r3 = f3 + f4;
    assert(r2.len() == 0 || r2[0] != 10);
    lemma_parse_opt_of_encoding(10, m.id@, r2);
    assert(s.skip(f1.len() as int) =~= r2);
    assert(r3.len() == 0 || r3[0] != 18);
    lemma_parse_opt_of_encoding(18, m.data@, r3);
    assert(s.skip(f1.len() + f2.len() as int) =~= r3);
    assert(f4.len() == 0 || f4[0] != 24);
    lemma_parse_opt_code_of_encoding(24, m.error_code.spec_wire_value(), f4);
    assert(s.skip(f1.len() + f2.len() + f3.len() as int) =~= f4);
    match m.error {
        None => {},
        Some(e) => {
            lemma_parse_of_field(34, spec_encode_envelope(e), Seq::empty());
            assert(f4 + Seq::<u8>::empty() =~= f4);
            lemma_parse_of_encode_envelope(e);
        },
    }
    assert(s.len() == f1.len() + f2.len() + f3.len() + f4.len());
}

/// A parsed response pins the input bytes down: they are exactly the
/// canonical encoding of the parsed fields.
#[verifier::rlimit(80)]
pub proof fn lemma_encode_of_parse_response(s: Seq<u8>)
    requires
        spec_parse_response(s) is Some,
    ensures
        ({
            let (id, dt, v, err) = spec_parse_response(s)->0;
            s =~= spec_opt_field(10, id) + spec_opt_field(18, dt) + spec_opt_varint_field(24, v)
                + (match err {
                None => Seq::<u8>::empty(),
                Some(parts) => spec_len_field(34, spec_encode_env_parts(parts)),
            })
        }),
{
    let (id, c1) = spec_parse_opt_nonempty(s, 10)->0;
    let (dt, c2) = spec_parse_opt_nonempty(s.skip(c1), 18)->0;
    let (v, c3) = spec_parse_opt_code(s.skip(c1 + c2), 24)->0;
    lemma_opt_nonempty_canonical(s, 10);
    lemma_opt_nonempty_canonical(s.skip(c1), 18);
    lemma_opt_code_canonical(s.skip(c1 + c2), 24);
    assert(s.skip(c1).skip(c2) =~= s.skip(c1 + c2));
    assert(s.skip(c1 + c2).skip(c3) =~= s.skip(c1 + c2 + c3));
    match spec_parse_field(s.skip(c1 + c2 + c3), 34) {
        FieldParse::Bad => {},
        FieldParse::Absent => {
            assert(s.skip(c1 + c2 + c3).len() == 0);
            assert(s =~= s.take(c1) + (s.skip(c1).take(c2) + (s.skip(c1 + c2).take(c3)
                + Seq::<u8>::empty())));
        },
        FieldParse::Got(p, c4) => {
            lemma_field_of_parse(s.skip(c1 + c2 + c3), 34);
            lemma_encode_of_parse_envelope(p);
            assert(s =~= s.take(c1) + (s.skip(c1).take(c2) + (s.skip(c1 + c2).take(c3) + s.skip(
                c1 + c2 + c3,
            ).take(c4))));
        },
    }
}

/// Decodes a response from its canonical wire bytes.  Returns the
/// response whose encoding is exactly `s`, or nothing when no response
/// encodes to `s`.
pub fn decode_response(s: &Vec<u8>) -> (r: Option<Response>)
    ensures
        match r {
            Some(m) => spec_encode_response(m) == s@,
            None => forall|m: Response| spec_encode_response(m) != s@,
        },
{
    proof {
        assert(s@.skip(0) =~= s@);
        assert forall|m: Response| spec_encode_response(m) == s@ implies spec_parse_response(s@)
            == Some(
            (
                m.id@,
                m.data@,
                m.error_code.spec_wire_value(),
                match m.error {
                    None => None,
                    Some(e) => Some(env_parts_of(e)),
                },
            ),
        ) by {
            lemma_parse_of_encode_response(m);
        }
    }
    let (id, p1) = match read_opt_nonempty(s, 0, 10) {
        None => {
            return None;
        },
        Some(x) => x,
    };
    let (data, p2) = match read_opt_nonempty(s, p1, 18) {
        None => {
            return None;
        },
        Some(x) => x,
    };
    proof {
        assert(s@.skip(0).skip(p1 as int) =~= s@.skip(p1 as int));
        assert(s@.skip(p1 as int).skip(p2 - p1) =~= s@.skip(p2 as int));
    }
    let (code_value, p3) = match read_opt_code(s, p2, 24) {
        None => {
            return None;
        },
        Some(x) => x,
    };
    proof {
        assert(s@.skip(p2 as int).skip(p3 - p2) =~= s@.skip(p3 as int));
    }
    let error_code = match ErrorCode::from_wire_value(code_value) {
        None => {
            proof {
                assert forall|m: Response| spec_encode_response(m) != s@ by {
                    if spec_encode_response(m) == s@ {
                        assert(m.error_code.spec_wire_value() <= 3);
                    }
                }
            }
            return None;
        },
        Some(c) => c,
    };
    let (error, p4) = match read_field(s, p3, 34) {
        FieldRead::Invalid => {
            return None;
        },
        FieldRead::Missing => (None, p3),
        FieldRead::Value(p, j) => {
            match decode_envelope(&p) {
                None => {
                    proof {
                        assert forall|m: Response| spec_encode_response(m) != s@ by {
                            if spec_encode_response(m) == s@ {
                                let parts = spec_parse_envelope(p@)->0;
                                lemma_encode_of_parse_envelope(p@);
                                let e = m.error->0;
                                assert(parts == env_parts_of(e));
                                lemma_encode_envelope_as_parts(e);
                                assert(spec_encode_envelope(e) == p@);
                            }
                        }
                    }
                    return None;
                },
                Some(env) => {
                    proof {
                        lemma_parse_of_encode_envelope(env);
                    }
                    (Some(env), j)
                },
            }
        },
    };
    if p4 != s.len() {
        return None;
    }
    let m = Response { id, data, error_code, error };
    proof {
        assert(spec_parse_response(s@) == Some(
            (
                m.id@,
                m.data@,
                m.error_code.spec_wire_value(),
                match m.error {
                    None => None::<EnvParts>,
                    Some(e) => Some(env_parts_of(e)),
                },
            ),
        ));
        lemma_encode_of_parse_response(s@);
        match &m.error {
            None => {},
            Some(e) => {
                lemma_encode_envelope_as_parts(*e);
            },
        }
        assert(spec_encode_response(m) =~= s@);
    }
    Some(m)
}

/// Raw parts distinguish envelopes: envelopes with the same parts are
/// structurally equal.
pub proof fn lemma_env_parts_injective(a: ErrorEnvelope, b: ErrorEnvelope)
    requires
        env_parts_of(a) == env_parts_of(b),
    ensures
        crate::transport::envelope_eq(a, b),
    decreases a,
{
    vstd::utf8::encode_utf8_decode_utf8(a.message@);
    vstd::utf8::encode_utf8_decode_utf8(b.message@);
    assert(utf8_of_strings(a.backtrace@).len() == utf8_of_strings(b.backtrace@).len());
    assert forall|j: int| 0 <= j < a.backtrace@.len() implies #[trigger] a.backtrace@[j]@
        == b.backtrace@[j]@ by {
        assert(utf8_of_strings(a.backtrace@)[j] == utf8_of_strings(b.backtrace@)[j]);
        vstd::utf8::encode_utf8_decode_utf8(a.backtrace@[j]@);
        vstd::utf8::encode_utf8_decode_utf8(b.backtrace@[j]@);
    }
    assert(crate::transport::view_of_strings(a.backtrace@) =~= crate::transport::view_of_strings(
        b.backtrace@,
    ));
    match (a.cause, b.cause) {
        (None, None) => {},
        (Some(ca), Some(cb)) => {
            lemma_env_parts_injective(*ca, *cb);
        },
        _ => {
            assert(false);
        },
    }
}

/// Encoding distinguishes distinct responses: two responses with the
/// same canonical bytes carry the same reply.
pub proof fn lemma_encode_response_injective(a: Response, b: Response)
    requires
        spec_encode_response(a) == spec_encode_response(b),
    ensures
        crate::transport::resp_eq(a, b),
{
    lemma_parse_of_encode_response(a);
    lemma_parse_of_encode_response(b);
    assert(a.error_code.spec_wire_value() == b.error_code.spec_wire_value());
    match (a.error, b.error) {
        (None, None) => {},
        (Some(ea), Some(eb)) => {
            lemma_env_parts_injective(ea, eb);
        },
        _ => {
            assert(false);
        },
    }
}

/// Encoding distinguishes distinct requests: two requests with the same
/// canonical bytes carry the same call.
pub proof fn lemma_encode_request_injective(a: Request, b: Request)
    requires
        spec_encode_request(a) == spec_encode_request(b),
    ensures
        crate::transport::req_eq(a, b),
{
    lemma_parse_of_encode_request(a);
    lemma_parse_of_encode_request(b);
    vstd::utf8::encode_utf8_decode_utf8(a.service_name@);
    vstd::utf8::encode_utf8_decode_utf8(b.service_name@);
    vstd::utf8::encode_utf8_decode_utf8(a.method_name@);
    vstd::utf8::encode_utf8_decode_utf8(b.method_name@);
}

} // verus!
