use vstd::prelude::*;
use vstd::bytes::{
    lemma_auto_spec_u32_to_from_le_bytes, spec_u32_from_le_bytes, spec_u32_to_le_bytes,
    u32_from_le_bytes, u32_to_le_bytes,
};
use vstd::slice::{slice_index_get, slice_subrange, slice_to_vec};

verus! {

/// Why inbound data was rejected. Any of these is a connection-scoped
/// failure: the sender gets a protocol-level error and every other
/// connection goes on unharmed.
#[derive(Clone, Copy, Debug, PartialEq, Eq, Structural)]
pub enum DecodeError {
    /// The data ends before a complete length prefix or payload.
    Truncated,
    /// Data follows the last expected chunk.
    TrailingBytes,
    /// A text field does not hold valid UTF-8.
    InvalidText,
}

/// A chunk: a four-byte little-endian length prefix, then the payload itself.
/// Chunks are the one primitive of the wire format; a payload must fit the
/// prefix, so it carries at most `u32::MAX` bytes.
pub open spec fn spec_chunk(payload: Seq<u8>) -> Seq<u8> {
    spec_u32_to_le_bytes(payload.len() as u32) + payload
}

/// A request frame: the service name, the method name and the request body,
/// each in a chunk of its own, with nothing after the third.
pub open spec fn spec_envelope(service: Seq<u8>, method: Seq<u8>, body: Seq<u8>) -> Seq<u8> {
    spec_chunk(service) + spec_chunk(method) + spec_chunk(body)
}

/// What reading one chunk at position `pos` of `bytes` yields: the payload
/// and the position just past it, or the reason the read fails.
pub open spec fn spec_take_chunk(bytes: Seq<u8>, pos: int) -> Result<(Seq<u8>, int), DecodeError> {
    if pos + 4 > bytes.len() {
        Err(DecodeError::Truncated)
    } else {
        let len = spec_u32_from_le_bytes(bytes.subrange(pos, pos + 4)) as int;
        if pos + 4 + len > bytes.len() {
            Err(DecodeError::Truncated)
        } else {
            Ok((bytes.subrange(pos + 4, pos + 4 + len), pos + 4 + len))
        }
    }
}

/// What parsing a whole request frame yields: its three chunks, with trailing
/// bytes refused.
pub open spec fn spec_parse_envelope(bytes: Seq<u8>) -> Result<
    (Seq<u8>, Seq<u8>, Seq<u8>),
    DecodeError,
> {
    match spec_take_chunk(bytes, 0) {
        Err(e) => Err(e),
        Ok((service, after_service)) => match spec_take_chunk(bytes, after_service) {
            Err(e) => Err(e),
            Ok((method, after_method)) => match spec_take_chunk(bytes, after_method) {
                Err(e) => Err(e),
                Ok((body, end)) => if end == bytes.len() {
                    Ok((service, method, body))
                } else {
                    Err(DecodeError::TrailingBytes)
                },
            },
        },
    }
}

/// Appends the chunk encoding of `payload` to `out`.
pub fn put_chunk(out: &mut Vec<u8>, payload: &[u8])
    requires
        payload@.len() <= u32::MAX,
    ensures
        final(out)@ == old(out)@ + spec_chunk(payload@),
{
    let len_bytes = u32_to_le_bytes(payload.len() as u32);
    let mut i: usize = 0;
    while i < len_bytes.len()
        invariant
            i <= len_bytes@.len(),
            len_bytes@ == spec_u32_to_le_bytes(payload@.len() as u32),
            out@ == old(out)@ + len_bytes@.take(i as int),
        decreases len_bytes@.len() - i,
    {
        out.push(len_bytes[i]);
        proof {
            assert(old(out)@ + len_bytes@.take(i as int) + seq![len_bytes@[i as int]] =~= old(
                out,
            )@ + len_bytes@.take(i + 1));
        }
        i = i + 1;
    }
    proof {
        assert(len_bytes@.take(len_bytes@.len() as int) =~= len_bytes@);
    }
    let mut j: usize = 0;
    while j < payload.len()
        invariant
            j <= payload@.len(),
            len_bytes@ == spec_u32_to_le_bytes(payload@.len() as u32),
            out@ == old(out)@ + len_bytes@ + payload@.take(j as int),
        decreases payload@.len() - j,
    {
        out.push(*slice_index_get(payload, j));
        proof {
            assert(old(out)@ + len_bytes@ + payload@.take(j as int) + seq![payload@[j as int]]
                =~= old(out)@ + len_bytes@ + payload@.take(j + 1));
        }
        j = j + 1;
    }
    proof {
        assert(payload@.take(payload@.len() as int) =~= payload@);
        assert(old(out)@ + len_bytes@ + payload@ =~= old(out)@ + spec_chunk(payload@));
    }
}

/// Reads the chunk that starts at `pos`: its payload and the position just
/// past it.
pub fn take_chunk(bytes: &[u8], pos: usize) -> (r: Result<(Vec<u8>, usize), DecodeError>)
    requires
        pos <= bytes@.len(),
    ensures
        r matches Ok(pn) ==> spec_take_chunk(bytes@, pos as int) == Ok::<_, DecodeError>(
            (pn.0@, pn.1 as int),
        ) && pn.1 <= bytes@.len(),
        r matches Err(e) ==> spec_take_chunk(bytes@, pos as int) == Err::<(Seq<u8>, int), _>(e),
{
    if bytes.len() - pos < 4 {
        return Err(DecodeError::Truncated);
    }
    let len_slice = slice_subrange(bytes, pos, pos + 4);
    let len = u32_from_le_bytes(len_slice) as usize;
    if bytes.len() - pos - 4 < len {
        return Err(DecodeError::Truncated);
    }
    let payload = slice_to_vec(slice_subrange(bytes, pos + 4, pos + 4 + len));
    Ok((payload, pos + 4 + len))
}

/// Builds a request frame from its three parts.
pub fn encode_envelope(service: &[u8], method: &[u8], body: &[u8]) -> (r: Vec<u8>)
    requires
        service@.len() <= u32::MAX,
        method@.len() <= u32::MAX,
        body@.len() <= u32::MAX,
    ensures
        r@ == spec_envelope(service@, method@, body@),
{
    let mut out: Vec<u8> = Vec::new();
    put_chunk(&mut out, service);
    put_chunk(&mut out, method);
    put_chunk(&mut out, body);
    proof {
        assert(out@ =~= spec_envelope(service@, method@, body@));
    }
    out
}

/// Parses a whole request frame into its three parts.
pub fn parse_envelope(bytes: &[u8]) -> (r: Result<(Vec<u8>, Vec<u8>, Vec<u8>), DecodeError>)
    ensures
        r matches Ok(smb) ==> spec_parse_envelope(bytes@) == Ok::<_, DecodeError>(
            (smb.0@, smb.1@, smb.2@),
        ),
        r matches Err(e) ==> spec_parse_envelope(bytes@) == Err::<(Seq<u8>, Seq<u8>, Seq<u8>), _>(
            e,
        ),
{
    let service = match take_chunk(bytes, 0) {
        Err(e) => {
            return Err(e);
        },
        Ok(sp) => sp,
    };
    let method = match take_chunk(bytes, service.1) {
        Err(e) => {
            return Err(e);
        },
        Ok(mp) => mp,
    };
    let body = match take_chunk(bytes, method.1) {
        Err(e) => {
            return Err(e);
        },
        Ok(bp) => bp,
    };
    if body.1 != bytes.len() {
        return Err(DecodeError::TrailingBytes);
    }
    Ok((service.0, method.0, body.0))
}

/// Reading a chunk back: wherever a chunk encoding stands in a byte stream,
/// taking a chunk at its start returns exactly its payload and the position
/// just past it.
pub proof fn lemma_chunk_round_trip(pre: Seq<u8>, payload: Seq<u8>, rest: Seq<u8>)
    requires
        payload.len() <= u32::MAX,
    ensures
        spec_take_chunk(pre + spec_chunk(payload) + rest, pre.len() as int) == Ok::<
            _,
            DecodeError,
        >((payload, pre.len() + 4 + payload.len() as int)),
{
    lemma_auto_spec_u32_to_from_le_bytes();
    let bytes = pre + spec_chunk(payload) + rest;
    let pos = pre.len() as int;
    assert(bytes.subrange(pos, pos + 4) =~= spec_u32_to_le_bytes(payload.len() as u32));
    assert(spec_u32_from_le_bytes(bytes.subrange(pos, pos + 4)) == payload.len() as u32);
    assert(bytes.subrange(pos + 4, pos + 4 + payload.len() as int) =~= payload);
}

/// Round trip of the request frame: parsing an encoded envelope returns
/// exactly the three parts it was built from.
pub proof fn lemma_envelope_round_trip(service: Seq<u8>, method: Seq<u8>, body: Seq<u8>)
    requires
        service.len() <= u32::MAX,
        method.len() <= u32::MAX,
        body.len() <= u32::MAX,
    ensures
        spec_parse_envelope(spec_envelope(service, method, body)) == Ok::<_, DecodeError>(
            (service, method, body),
        ),
{
    lemma_auto_spec_u32_to_from_le_bytes();
    let bytes = spec_envelope(service, method, body);
    assert(bytes =~= Seq::<u8>::empty() + spec_chunk(service) + (spec_chunk(method) + spec_chunk(
        body,
    )));
    lemma_chunk_round_trip(Seq::<u8>::empty(), service, spec_chunk(method) + spec_chunk(body));
    assert(spec_take_chunk(bytes, 0) == Ok::<_, DecodeError>(
        (service, 4 + service.len() as int),
    ));
    assert(bytes =~= spec_chunk(service) + spec_chunk(method) + spec_chunk(body));
    lemma_chunk_round_trip(spec_chunk(service), method, spec_chunk(body));
    assert(spec_chunk(service).len() == 4 + service.len());
    lemma_chunk_round_trip(spec_chunk(service) + spec_chunk(method), body, Seq::<u8>::empty());
    assert(spec_chunk(service) + spec_chunk(method) + spec_chunk(body) + Seq::<u8>::empty()
        =~= bytes);
    assert((spec_chunk(service) + spec_chunk(method)).len() == 4 + service.len() + 4
        + method.len());
}

} // verus!
