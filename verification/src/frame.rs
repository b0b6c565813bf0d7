use vstd::prelude::*;

use crate::date::{spec_date_bytes, UtcDate, format_date};
use crate::errors::RelayError;

verus! {

/// First byte of every frame.
pub const START_MARKER: u8 = 0xf0;
/// Last byte of every frame.
pub const END_MARKER: u8 = 0xfe;
/// Protocol version byte of a data frame.
pub const FRAME_VERSION: u8 = 0x01;
/// Message type byte of a data frame.
pub const TYPE_DATA: u8 = 0x03;
/// Bytes of a data frame besides the payload: markers, length, version,
/// type, three 12-byte identifiers and the 8-byte date stamp.
pub const FRAME_OVERHEAD: u32 = 52;
/// Width of each identifier slot.
pub const FIELD_WIDTH: usize = 12;

/// The four big-endian bytes of a 32-bit value.
pub open spec fn be32(n: u32) -> Seq<u8> {
    seq![(n >> 24) as u8, (n >> 16) as u8, (n >> 8) as u8, n as u8]
}

/// An identifier left-packed into its 12-byte slot, padded with zero bytes.
pub open spec fn pad_field(s: Seq<u8>) -> Seq<u8>
    recommends
        s.len() <= FIELD_WIDTH,
{
    Seq::new(FIELD_WIDTH as nat, |i: int| if i < s.len() { s[i] } else { 0u8 })
}

/// The exact wire bytes of a data frame: start marker, big-endian total
/// length, version, type, the three padded identifiers, the date stamp, the
/// payload, end marker.
pub open spec fn spec_frame(
    app: Seq<u8>,
    env: Seq<u8>,
    api: Seq<u8>,
    date: Seq<u8>,
    data: Seq<u8>,
) -> Seq<u8> {
    seq![START_MARKER] + be32((FRAME_OVERHEAD + data.len()) as u32)
        + seq![FRAME_VERSION, TYPE_DATA] + pad_field(app) + pad_field(env) + pad_field(api)
        + date + data + seq![END_MARKER]
}

/// The fixed 7-byte keepalive frame: start marker, big-endian length 7, a
/// zero type byte, end marker.
pub open spec fn spec_heartbeat() -> Seq<u8> {
    seq![0xf0u8, 0x00u8, 0x00u8, 0x00u8, 0x07u8, 0x00u8, 0xfeu8]
}

/// Builds the keepalive frame. Its bytes never depend on time or date.
pub fn heartbeat_frame() -> (r: Vec<u8>)
    ensures
        r@ == spec_heartbeat(),
        r@.len() == 7,
{
    let mut r: Vec<u8> = Vec::new();
    r.push(0xf0);
    r.push(0x00);
    r.push(0x00);
    r.push(0x00);
    r.push(0x07);
    r.push(0x00);
    r.push(0xfe);
    assert(r@ =~= spec_heartbeat());
    r
}

/// The heartbeat frame obeys the framing invariant: its length field is the
/// big-endian count of the whole frame, and it wears both markers.
pub proof fn lemma_heartbeat_well_framed()
    ensures
        spec_heartbeat().len() == 7,
        spec_heartbeat().subrange(1, 5) == be32(7u32),
        spec_heartbeat()[0] == START_MARKER,
        spec_heartbeat()[6] == END_MARKER,
{
    assert((7u32 >> 24) as u8 == 0 && (7u32 >> 16) as u8 == 0 && (7u32 >> 8) as u8 == 0
        && 7u32 as u8 == 7) by (bit_vector);
    assert(spec_heartbeat().subrange(1, 5) =~= be32(7u32));
}

/// Appends the bytes of `src` to `buf`.
pub fn push_bytes(buf: &mut Vec<u8>, src: &Vec<u8>)
    requires
        old(buf)@.len() + src@.len() <= usize::MAX,
    ensures
        final(buf)@ == old(buf)@ + src@,
{
    let mut i: usize = 0;
    while i < src.len()
        invariant
            i <= src@.len(),
            buf@ == old(buf)@ + src@.take(i as int),
            old(buf)@.len() + src@.len() <= usize::MAX,
        decreases src@.len() - i,
    {
        buf.push(src[i]);
        assert(buf@ =~= old(buf)@ + src@.take(i as int + 1));
        i += 1;
    }
    assert(buf@ =~= old(buf)@ + src@);
}

/// Appends an identifier left-packed into its 12-byte slot.
fn push_padded_field(buf: &mut Vec<u8>, field: &Vec<u8>)
    requires
        field@.len() <= FIELD_WIDTH,
        old(buf)@.len() + FIELD_WIDTH <= usize::MAX,
    ensures
        final(buf)@ == old(buf)@ + pad_field(field@),
{
    let mut i: usize = 0;
    while i < FIELD_WIDTH
        invariant
            i <= FIELD_WIDTH,
            field@.len() <= FIELD_WIDTH,
            old(buf)@.len() + FIELD_WIDTH <= usize::MAX,
            buf@ == old(buf)@ + pad_field(field@).take(i as int),
        decreases FIELD_WIDTH - i,
    {
        if i < field.len() {
            buf.push(field[i]);
        } else {
            buf.push(0);
        }
        assert(buf@ =~= old(buf)@ + pad_field(field@).take(i as int + 1));
        i += 1;
    }
    assert(buf@ =~= old(buf)@ + pad_field(field@));
}

/// Encodes a validated submission into its wire frame.
///
/// Succeeds exactly when each identifier fits its 12-byte slot; an oversized
/// identifier yields `FieldTooLong` and no frame, never a truncated or
/// misaligned one. The returned buffer is byte-exact per `spec_frame`, and
/// its length field equals its actual length.
pub fn encode_frame(
    app: &Vec<u8>,
    env: &Vec<u8>,
    api: &Vec<u8>,
    data: &Vec<u8>,
    date: &UtcDate,
) -> (r: Result<Vec<u8>, RelayError>)
    requires
        date.wf(),
        data@.len() + FRAME_OVERHEAD <= u32::MAX,
    ensures
        r is Ok <==> app@.len() <= FIELD_WIDTH && env@.len() <= FIELD_WIDTH && api@.len()
            <= FIELD_WIDTH,
        r matches Ok(f) ==> f@ == spec_frame(app@, env@, api@, spec_date_bytes(*date), data@)
            && f@.len() == FRAME_OVERHEAD + data@.len(),
        r matches Err(e) ==> e == RelayError::FieldTooLong,
{
    if app.len() > FIELD_WIDTH || env.len() > FIELD_WIDTH || api.len() > FIELD_WIDTH {
        return Err(RelayError::FieldTooLong);
    }
    let total: u32 = FRAME_OVERHEAD + data.len() as u32;
    let mut f: Vec<u8> = Vec::new();
    f.push(START_MARKER);
    f.push((total >> 24) as u8);
    f.push((total >> 16) as u8);
    f.push((total >> 8) as u8);
    f.push(total as u8);
    f.push(FRAME_VERSION);
    f.push(TYPE_DATA);
    push_padded_field(&mut f, app);
    push_padded_field(&mut f, env);
    push_padded_field(&mut f, api);
    let stamp = format_date(date);
    push_bytes(&mut f, &stamp);
    push_bytes(&mut f, data);
    f.push(END_MARKER);
    assert(f@ =~= spec_frame(app@, env@, api@, spec_date_bytes(*date), data@));
    Ok(f)
}

/// The identifier with its trailing zero padding removed.
pub open spec fn strip_zeros(s: Seq<u8>) -> Seq<u8>
    decreases s.len(),
{
    if s.len() > 0 && s.last() == 0 {
        strip_zeros(s.drop_last())
    } else {
        s
    }
}

/// The fields read back from a well-formed data frame, identifiers with
/// their padding removed.
pub open spec fn spec_decode(f: Seq<u8>) -> Option<(Seq<u8>, Seq<u8>, Seq<u8>, Seq<u8>, Seq<u8>)> {
    if f.len() >= FRAME_OVERHEAD && f.len() <= u32::MAX && f[0] == START_MARKER && f.last()
        == END_MARKER && f.subrange(1, 5) == be32(f.len() as u32) && f[5] == FRAME_VERSION && f[6]
        == TYPE_DATA {
        Some(
            (
                strip_zeros(f.subrange(7, 19)),
                strip_zeros(f.subrange(19, 31)),
                strip_zeros(f.subrange(31, 43)),
                f.subrange(43, 51),
                f.subrange(51, f.len() - 1),
            ),
        )
    } else {
        None
    }
}

/// The fields of a decoded data frame: the three identifiers (padding
/// stripped), the eight date bytes, and the payload.
pub struct DecodedFrame {
    pub app: Vec<u8>,
    pub env: Vec<u8>,
    pub api: Vec<u8>,
    pub date: Vec<u8>,
    pub data: Vec<u8>,
}

/// Copies `src[from .. to]` into a fresh buffer.
pub fn copy_range(src: &Vec<u8>, from: usize, to: usize) -> (r: Vec<u8>)
    requires
        from <= to <= src@.len(),
    ensures
        r@ == src@.subrange(from as int, to as int),
{
    let mut r: Vec<u8> = Vec::new();
    let mut i: usize = from;
    while i < to
        invariant
            from <= i <= to <= src@.len(),
            r@ == src@.subrange(from as int, i as int),
        decreases to - i,
    {
        r.push(src[i]);
        assert(r@ =~= src@.subrange(from as int, i as int + 1));
        i += 1;
    }
    r
}

/// Removes the trailing zero bytes of an identifier slot.
fn strip_trailing_zeros(v: Vec<u8>) -> (r: Vec<u8>)
    ensures
        r@ == strip_zeros(v@),
{
    let ghost v0 = v@;
    let mut v = v;
    while v.len() > 0 && v[v.len() - 1] == 0
        invariant
            strip_zeros(v@) == strip_zeros(v0),
        decreases v@.len(),
    {
        let _ = v.pop();
    }
    v
}

/// Reads the fields back out of a frame.
///
/// Returns the fields exactly when the bytes form a well-formed data frame:
/// both markers in place, version and type bytes correct, and the length
/// field equal to the actual length. Any malformed input yields `None`.
pub fn decode_frame(frame: &Vec<u8>) -> (r: Option<DecodedFrame>)
    ensures
        r is Some <==> spec_decode(frame@) is Some,
        r matches Some(d) ==> spec_decode(frame@) == Some(
            (d.app@, d.env@, d.api@, d.date@, d.data@),
        ),
{
    let n = frame.len();
    if n < 52 {
        return None;
    }
    if n > u32::MAX as usize {
        return None;
    }
    let n32 = n as u32;
    if frame[0] != START_MARKER || frame[n - 1] != END_MARKER {
        return None;
    }
    if frame[1] != (n32 >> 24) as u8 || frame[2] != (n32 >> 16) as u8 || frame[3] != (n32 >> 8) as u8
        || frame[4] != n32 as u8 {
        proof {
            assert(frame@.subrange(1, 5) != be32(n32) ==> spec_decode(frame@) is None);
            if frame@.subrange(1, 5) == be32(n32) {
                assert(frame@.subrange(1, 5)[0] == frame@[1]);
                assert(frame@.subrange(1, 5)[1] == frame@[2]);
                assert(frame@.subrange(1, 5)[2] == frame@[3]);
                assert(frame@.subrange(1, 5)[3] == frame@[4]);
            }
        }
        return None;
    }
    if frame[5] != FRAME_VERSION || frame[6] != TYPE_DATA {
        return None;
    }
    proof {
        assert(frame@.subrange(1, 5) =~= be32(n32));
    }
    let app = strip_trailing_zeros(copy_range(frame, 7, 19));
    let env = strip_trailing_zeros(copy_range(frame, 19, 31));
    let api = strip_trailing_zeros(copy_range(frame, 31, 43));
    let date = copy_range(frame, 43, 51);
    let data = copy_range(frame, 51, n - 1);
    Some(DecodedFrame { app, env, api, date, data })
}

/// Appending zero bytes never changes an identifier once padding is
/// stripped.
proof fn lemma_strip_zeros_append(s: Seq<u8>, t: Seq<u8>)
    requires
        forall|i: int| 0 <= i < t.len() ==> t[i] == 0,
    ensures
        strip_zeros(s + t) == strip_zeros(s),
    decreases t.len(),
{
    if t.len() == 0 {
        assert(s + t =~= s);
    } else {
        assert((s + t).last() == 0);
        assert((s + t).drop_last() =~= s + t.drop_last());
        lemma_strip_zeros_append(s, t.drop_last());
    }
}

/// Round trip: decoding an encoded frame recovers the same four fields
/// (identifiers modulo their zero padding) and the date stamp it was encoded
/// with, and the frame passes the length-field check.
pub proof fn lemma_frame_round_trip(
    app: Seq<u8>,
    env: Seq<u8>,
    api: Seq<u8>,
    date: Seq<u8>,
    data: Seq<u8>,
)
    requires
        app.len() <= FIELD_WIDTH,
        env.len() <= FIELD_WIDTH,
        api.len() <= FIELD_WIDTH,
        date.len() == 8,
        data.len() + FRAME_OVERHEAD <= u32::MAX,
    ensures
        spec_decode(spec_frame(app, env, api, date, data)) == Some(
            (strip_zeros(app), strip_zeros(env), strip_zeros(api), date, data),
        ),
{
    let f = spec_frame(app, env, api, date, data);
    assert(f.len() == FRAME_OVERHEAD + data.len());
    assert(f[0] == START_MARKER);
    assert(f.last() == END_MARKER);
    assert(f[5] == FRAME_VERSION);
    assert(f[6] == TYPE_DATA);
    assert(f.subrange(1, 5) =~= be32(f.len() as u32));
    assert(f.subrange(7, 19) =~= pad_field(app));
    assert(f.subrange(19, 31) =~= pad_field(env));
    assert(f.subrange(31, 43) =~= pad_field(api));
    assert(f.subrange(43, 51) =~= date);
    assert(f.subrange(51, f.len() - 1) =~= data);
    assert(pad_field(app) =~= app + Seq::new((FIELD_WIDTH - app.len()) as nat, |i: int| 0u8));
    assert(pad_field(env) =~= env + Seq::new((FIELD_WIDTH - env.len()) as nat, |i: int| 0u8));
    assert(pad_field(api) =~= api + Seq::new((FIELD_WIDTH - api.len()) as nat, |i: int| 0u8));
    lemma_strip_zeros_append(app, Seq::new((FIELD_WIDTH - app.len()) as nat, |i: int| 0u8));
    lemma_strip_zeros_append(env, Seq::new((FIELD_WIDTH - env.len()) as nat, |i: int| 0u8));
    lemma_strip_zeros_append(api, Seq::new((FIELD_WIDTH - api.len()) as nat, |i: int| 0u8));
}

/// Date stamping: a frame's date field is exactly the stamp of the date it
/// was encoded with. Two frames encoded on the same calendar day therefore
/// carry identical eight-byte date fields, whatever their other fields; two
/// frames encoded on different days never do.
pub proof fn lemma_date_stamp(
    app1: Seq<u8>,
    env1: Seq<u8>,
    api1: Seq<u8>,
    data1: Seq<u8>,
    d1: UtcDate,
    app2: Seq<u8>,
    env2: Seq<u8>,
    api2: Seq<u8>,
    data2: Seq<u8>,
    d2: UtcDate,
)
    requires
        d1.wf(),
        d2.wf(),
    ensures
        spec_frame(app1, env1, api1, spec_date_bytes(d1), data1).subrange(43, 51)
            == spec_date_bytes(d1),
        spec_frame(app2, env2, api2, spec_date_bytes(d2), data2).subrange(43, 51)
            == spec_date_bytes(d2),
        d1 == d2 ==> spec_frame(app1, env1, api1, spec_date_bytes(d1), data1).subrange(43, 51)
            == spec_frame(app2, env2, api2, spec_date_bytes(d2), data2).subrange(43, 51),
        d1 != d2 ==> spec_frame(app1, env1, api1, spec_date_bytes(d1), data1).subrange(43, 51)
            != spec_frame(app2, env2, api2, spec_date_bytes(d2), data2).subrange(43, 51),
{
    assert(spec_frame(app1, env1, api1, spec_date_bytes(d1), data1).subrange(43, 51)
        =~= spec_date_bytes(d1));
    assert(spec_frame(app2, env2, api2, spec_date_bytes(d2), data2).subrange(43, 51)
        =~= spec_date_bytes(d2));
    if d1 != d2 && spec_date_bytes(d1) == spec_date_bytes(d2) {
        crate::date::lemma_date_bytes_injective(d1, d2);
    }
}

} // verus!
