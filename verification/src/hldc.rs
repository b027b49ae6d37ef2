//! Byte-stuffing framing codec.
//!
//! `encode` turns an arbitrary payload into a self-delimited frame: a
//! boundary marker, the payload with every reserved byte replaced by an
//! escape pair, and a closing boundary marker. `decode` is the exact
//! inverse. Stuffing guarantees that the boundary marker never appears
//! inside a frame body, which is what lets the frame synchronizer find
//! frame boundaries by a raw byte scan without decoding first.

use vstd::prelude::*;

mod error;
pub use error::Error;

verus! {

/// Smallest distance between the two boundary markers of a frame that the
/// synchronizer accepts as a complete frame found inside a single read.
pub const MIN_FRAME_SIZE: usize = 6;

/// The byte announcing that the next body byte is a stuffed replacement.
pub const ESCAPE_MARKER: u8 = 0x7d;

/// The byte delimiting the start and the end of every frame.
pub const FRAME_BOUNDARY_MARKER: u8 = 0x7e;

/// The four reserved byte values that may never stand raw inside a frame
/// body: the escape marker, the boundary marker, and the two bytes whose
/// values the transport reserves for wake-up pulse semantics.
pub open spec fn is_special(b: u8) -> bool {
    b == 0x7d || b == 0x7e || b == 0x11 || b == 0x13
}

/// The stuffed replacement written after an escape marker for a reserved byte.
pub open spec fn replacement_of(b: u8) -> u8
    recommends
        is_special(b),
{
    if b == 0x7d {
        0x5d
    } else if b == 0x7e {
        0x5e
    } else if b == 0x11 {
        0x31
    } else {
        0x33
    }
}

/// Whether `b` is the stuffed replacement of some reserved byte.
pub open spec fn is_replacement(b: u8) -> bool {
    b == 0x5d || b == 0x5e || b == 0x31 || b == 0x33
}

/// The reserved byte a stuffed replacement stands for; inverse of `replacement_of`.
pub open spec fn original_of(b: u8) -> u8
    recommends
        is_replacement(b),
{
    if b == 0x5d {
        0x7d
    } else if b == 0x5e {
        0x7e
    } else if b == 0x31 {
        0x11
    } else {
        0x13
    }
}

/// How one payload byte appears in the frame body: a reserved byte becomes
/// the escape marker followed by its replacement, any other byte stands as is.
pub open spec fn escape_seq(b: u8) -> Seq<u8> {
    if is_special(b) {
        seq![ESCAPE_MARKER, replacement_of(b)]
    } else {
        seq![b]
    }
}

/// The stuffed frame body of a payload: each byte replaced by `escape_seq`.
pub open spec fn stuffed(data: Seq<u8>) -> Seq<u8>
    decreases data.len(),
{
    if data.len() == 0 {
        Seq::empty()
    } else {
        escape_seq(data[0]) + stuffed(data.drop_first())
    }
}

/// The complete wire frame for a payload: the stuffed body between two
/// boundary markers.
pub open spec fn encoded_frame(data: Seq<u8>) -> Seq<u8> {
    seq![FRAME_BOUNDARY_MARKER] + stuffed(data) + seq![FRAME_BOUNDARY_MARKER]
}

/// Stuffing distributes over concatenation.
pub proof fn lemma_stuffed_append(a: Seq<u8>, b: Seq<u8>)
    ensures
        stuffed(a + b) == stuffed(a) + stuffed(b),
    decreases a.len(),
{
    if a.len() == 0 {
        assert(a + b =~= b);
        assert(stuffed(a) + stuffed(b) =~= stuffed(b));
    } else {
        assert((a + b).drop_first() =~= a.drop_first() + b);
        assert((a + b)[0] == a[0]);
        lemma_stuffed_append(a.drop_first(), b);
        assert(escape_seq(a[0]) + (stuffed(a.drop_first()) + stuffed(b)) =~= (escape_seq(a[0])
            + stuffed(a.drop_first())) + stuffed(b));
    }
}

/// A stuffed single byte is exactly its escape expansion.
pub proof fn lemma_stuffed_singleton(b: u8)
    ensures
        stuffed(seq![b]) == escape_seq(b),
{
    reveal_with_fuel(stuffed, 2);
    assert(seq![b].drop_first() =~= Seq::<u8>::empty());
    assert(stuffed(seq![b]) == escape_seq(b) + stuffed(seq![b].drop_first()));
    assert(stuffed(Seq::<u8>::empty()) == Seq::<u8>::empty());
    assert(escape_seq(b) + Seq::<u8>::empty() =~= escape_seq(b));
}

/// The stuffed body is at least as long as the payload and at most twice as long.
pub proof fn lemma_stuffed_len(data: Seq<u8>)
    ensures
        data.len() <= stuffed(data).len() <= 2 * data.len(),
    decreases data.len(),
{
    if data.len() > 0 {
        lemma_stuffed_len(data.drop_first());
    }
}

/// Escape completeness: every reserved byte is emitted as the escape marker
/// followed by its mapped replacement, never as itself. As a frame, a
/// single reserved byte therefore travels as exactly four bytes.
pub proof fn lemma_escape_completeness(b: u8)
    requires
        is_special(b),
    ensures
        stuffed(seq![b]) == seq![ESCAPE_MARKER, replacement_of(b)],
        encoded_frame(seq![b]) =~= seq![
            FRAME_BOUNDARY_MARKER,
            ESCAPE_MARKER,
            replacement_of(b),
            FRAME_BOUNDARY_MARKER,
        ],
{
    lemma_stuffed_singleton(b);
}

/// The boundary marker never occurs inside a stuffed frame body; only the
/// two outer markers of a frame carry that value. This is what makes a raw
/// scan for the boundary marker a safe frame delimiter.
pub proof fn lemma_stuffed_no_boundary(data: Seq<u8>)
    ensures
        forall|i: int|
            0 <= i < stuffed(data).len() ==> #[trigger] stuffed(data)[i]
                != FRAME_BOUNDARY_MARKER,
    decreases data.len(),
{
    if data.len() > 0 {
        lemma_stuffed_no_boundary(data.drop_first());
        assert forall|i: int| 0 <= i < stuffed(data).len() implies #[trigger] stuffed(data)[i]
            != FRAME_BOUNDARY_MARKER by {
            let head = escape_seq(data[0]);
            if i >= head.len() {
                assert(stuffed(data)[i] == stuffed(data.drop_first())[i - head.len()]);
            }
        }
    }
}

/// The stuffed replacement for `b`, or `None` where `b` is not reserved.
fn replacement_for(b: u8) -> (r: Option<u8>)
    ensures
        r is Some <==> is_special(b),
        r matches Some(x) ==> x == replacement_of(b),
{
    match b {
        0x7d => Some(0x5d),
        0x7e => Some(0x5e),
        0x11 => Some(0x31),
        0x13 => Some(0x33),
        _ => None,
    }
}

/// The reserved byte that the replacement `b` stands for, or `None` where
/// `b` is not a replacement.
fn original_for(b: u8) -> (r: Option<u8>)
    ensures
        r is Some <==> is_replacement(b),
        r matches Some(x) ==> x == original_of(b),
{
    match b {
        0x5d => Some(0x7d),
        0x5e => Some(0x7e),
        0x31 => Some(0x11),
        0x33 => Some(0x13),
        _ => None,
    }
}

/// Produces the escaped frame for `data`, delimited by boundary markers.
///
/// Fails with `Error::TooMuchData` exactly when the payload cannot be
/// guaranteed to fit within `max_encoded_size` output bytes even if every
/// byte had to be escaped: two boundary markers plus at worst two bytes per
/// payload byte. On success the frame is `encoded_frame(data)` and fits the
/// capacity.
pub fn encode(data: &[u8], max_encoded_size: usize) -> (r: Result<Vec<u8>, Error>)
    requires
        max_encoded_size >= 4,
    ensures
        data@.len() <= max_encoded_size / 2 - 2 ==> (r matches Ok(out) && out@ == encoded_frame(
            data@,
        ) && out@.len() <= max_encoded_size),
        data@.len() > max_encoded_size / 2 - 2 ==> r == Err::<Vec<u8>, Error>(Error::TooMuchData),
{
    if data.len() > max_encoded_size / 2 - 2 {
        return Err(Error::TooMuchData);
    }
    let mut output: Vec<u8> = Vec::new();
    output.push(FRAME_BOUNDARY_MARKER);
    let mut i: usize = 0;
    while i < data.len()
        invariant
            i <= data@.len(),
            output@ == seq![FRAME_BOUNDARY_MARKER] + stuffed(data@.subrange(0, i as int)),
        decreases data@.len() - i,
    {
        let byte = data[i];
        match replacement_for(byte) {
            Some(replacement) => {
                output.push(ESCAPE_MARKER);
                output.push(replacement);
            },
            None => {
                output.push(byte);
            },
        }
        proof {
            assert(data@.subrange(0, i as int) + seq![data@[i as int]] =~= data@.subrange(
                0,
                i + 1 as int,
            ));
            lemma_stuffed_append(data@.subrange(0, i as int), seq![data@[i as int]]);
            lemma_stuffed_singleton(data@[i as int]);
            assert(output@ =~= seq![FRAME_BOUNDARY_MARKER] + stuffed(
                data@.subrange(0, i + 1 as int),
            ));
        }
        i += 1;
    }
    output.push(FRAME_BOUNDARY_MARKER);
    proof {
        assert(data@.subrange(0, data@.len() as int) =~= data@);
        assert(output@ =~= encoded_frame(data@));
        lemma_stuffed_len(data@);
    }
    Ok(output)
}

/// The meaning of a frame body: the payload it stuffs, or the first error
/// met reading left to right. `room` is how many decoded bytes may still be
/// produced; it runs out with `Error::TooMuchData`, checked after the
/// escape pair at hand is validated, as the decoder does.
pub open spec fn unstuffed(s: Seq<u8>, room: int) -> Result<Seq<u8>, Error>
    decreases s.len(),
{
    if s.len() == 0 {
        Ok(Seq::empty())
    } else if s[0] == ESCAPE_MARKER {
        if s.len() == 1 {
            Err(Error::MissingTradeChar)
        } else if !is_replacement(s[1]) {
            Err(Error::FendCharInData)
        } else if room <= 0 {
            Err(Error::TooMuchData)
        } else {
            match unstuffed(s.skip(2), room - 1) {
                Ok(rest) => Ok(seq![original_of(s[1])] + rest),
                Err(e) => Err(e),
            }
        }
    } else if room <= 0 {
        Err(Error::TooMuchData)
    } else {
        match unstuffed(s.skip(1), room - 1) {
            Ok(rest) => Ok(seq![s[0]] + rest),
            Err(e) => Err(e),
        }
    }
}

/// The meaning of a whole received frame: reject anything under four bytes,
/// demand a boundary marker at both ends, then unstuff the interior with
/// `room` bytes of output capacity.
pub open spec fn decoded_frame(input: Seq<u8>, room: int) -> Result<Seq<u8>, Error> {
    if input.len() < 4 {
        Err(Error::TooFewData)
    } else if input[0] != FRAME_BOUNDARY_MARKER {
        Err(Error::MissingFirstFend)
    } else if input[input.len() - 1] != FRAME_BOUNDARY_MARKER {
        Err(Error::MissingFinalFend)
    } else {
        unstuffed(input.subrange(1, input.len() - 1), room)
    }
}

/// Produces the unescaped payload of the frame `input`, without the
/// boundary markers, writing at most `max_decoded_size` bytes.
///
/// The result is exactly `decoded_frame(input, max_decoded_size)`: too few
/// bytes, a missing boundary marker at either end, a dangling escape
/// marker, an unrecognized escape replacement, and output overflow each
/// fail with their own error, in the order the decoder meets them.
pub fn decode(input: &[u8], max_decoded_size: usize) -> (r: Result<Vec<u8>, Error>)
    ensures
        ({
            let s = decoded_frame(input@, max_decoded_size as int);
            match r {
                Ok(v) => s is Ok && v@ == s->Ok_0,
                Err(e) => s is Err && e == s->Err_0,
            }
        }),
{
    if input.len() < 4 {
        return Err(Error::TooFewData);
    }
    if input[0] != FRAME_BOUNDARY_MARKER {
        return Err(Error::MissingFirstFend);
    }
    if input[input.len() - 1] != FRAME_BOUNDARY_MARKER {
        return Err(Error::MissingFinalFend);
    }
    let ghost interior = input@.subrange(1, input@.len() - 1);
    let end = input.len() - 1;
    let mut output: Vec<u8> = Vec::new();
    let mut i: usize = 1;
    while i < end
        invariant
            1 <= i <= end,
            end == input@.len() - 1,
            input@.len() >= 4,
            input@[0] == FRAME_BOUNDARY_MARKER,
            input@[input@.len() - 1] == FRAME_BOUNDARY_MARKER,
            interior == input@.subrange(1, input@.len() - 1),
            output@.len() <= max_decoded_size,
            ({
                let rest = unstuffed(
                    input@.subrange(i as int, end as int),
                    max_decoded_size - output@.len(),
                );
                match rest {
                    Ok(t) => unstuffed(interior, max_decoded_size as int) == Ok::<
                        Seq<u8>,
                        Error,
                    >(output@ + t),
                    Err(e) => unstuffed(interior, max_decoded_size as int) == Err::<
                        Seq<u8>,
                        Error,
                    >(e),
                }
            }),
        decreases end - i,
    {
        let ghost s = input@.subrange(i as int, end as int);
        let byte = input[i];
        proof {
            assert(s[0] == input@[i as int]);
        }
        if byte == ESCAPE_MARKER {
            if i + 1 >= end {
                proof {
                    assert(s.len() == 1);
                }
                return Err(Error::MissingTradeChar);
            }
            let escaped_byte = input[i + 1];
            proof {
                assert(s[1] == input@[i + 1 as int]);
            }
            match original_for(escaped_byte) {
                Some(org) => {
                    if output.len() >= max_decoded_size {
                        return Err(Error::TooMuchData);
                    }
                    let ghost out_old = output@;
                    let ghost room_old = max_decoded_size - out_old.len();
                    output.push(org);
                    proof {
                        assert(s.len() >= 2);
                        assert(s[0] == ESCAPE_MARKER);
                        assert(is_replacement(s[1]));
                        assert(room_old > 0);
                        assert(s.skip(2) =~= input@.subrange(i + 2 as int, end as int));
                        let rest2 = unstuffed(
                            input@.subrange(i + 2 as int, end as int),
                            max_decoded_size - output@.len(),
                        );
                        assert(max_decoded_size - output@.len() == room_old - 1);
                        match rest2 {
                            Ok(t) => {
                                assert(unstuffed(s, room_old) == Ok::<Seq<u8>, Error>(seq![
                                    original_of(s[1]),
                                ] + t));
                                assert(out_old + (seq![original_of(s[1])] + t) =~= output@ + t);
                            },
                            Err(e) => {
                                assert(unstuffed(s, room_old) == Err::<Seq<u8>, Error>(e));
                            },
                        }
                    }
                    i += 2;
                },
                None => {
                    return Err(Error::FendCharInData);
                },
            }
        } else {
            if output.len() >= max_decoded_size {
                return Err(Error::TooMuchData);
            }
            let ghost out_old = output@;
            let ghost room_old = max_decoded_size - out_old.len();
            output.push(byte);
            proof {
                assert(s[0] != ESCAPE_MARKER);
                assert(room_old > 0);
                assert(s.skip(1) =~= input@.subrange(i + 1 as int, end as int));
                let rest2 = unstuffed(
                    input@.subrange(i + 1 as int, end as int),
                    max_decoded_size - output@.len(),
                );
                assert(max_decoded_size - output@.len() == room_old - 1);
                match rest2 {
                    Ok(t) => {
                        assert(unstuffed(s, room_old) == Ok::<Seq<u8>, Error>(seq![s[0]] + t));
                        assert(out_old + (seq![s[0]] + t) =~= output@ + t);
                    },
                    Err(e) => {
                        assert(unstuffed(s, room_old) == Err::<Seq<u8>, Error>(e));
                    },
                }
            }
            i += 1;
        }
    }
    proof {
        assert(input@.subrange(i as int, end as int) =~= Seq::<u8>::empty());
        assert(output@ + Seq::<u8>::empty() =~= output@);
    }
    Ok(output)
}

/// Unstuffing a stuffed body restores the payload, given room for all of it.
pub proof fn lemma_unstuffed_stuffed(data: Seq<u8>, room: int)
    requires
        room >= data.len(),
    ensures
        unstuffed(stuffed(data), room) == Ok::<Seq<u8>, Error>(data),
    decreases data.len(),
{
    if data.len() == 0 {
        assert(data =~= Seq::<u8>::empty());
        assert(stuffed(data) == Seq::<u8>::empty());
        assert(unstuffed(stuffed(data), room) == Ok::<Seq<u8>, Error>(Seq::empty()));
    } else {
        let b = data[0];
        let rest = data.drop_first();
        lemma_unstuffed_stuffed(rest, room - 1);
        let s = stuffed(data);
        assert(s == escape_seq(b) + stuffed(rest));
        if is_special(b) {
            assert(s.len() >= 2);
            assert(s[0] == ESCAPE_MARKER);
            assert(s[1] == replacement_of(b));
            assert(is_replacement(s[1]));
            assert(s.skip(2) =~= stuffed(rest));
            assert(unstuffed(s.skip(2), room - 1) == Ok::<Seq<u8>, Error>(rest));
            assert(unstuffed(s, room) == Ok::<Seq<u8>, Error>(seq![original_of(s[1])] + rest));
            assert(original_of(s[1]) == b);
            assert(seq![original_of(s[1])] + rest == seq![b] + rest);
            assert(seq![b] + rest =~= data);
        } else {
            assert(b != ESCAPE_MARKER);
            assert(s.len() >= 1);
            assert(s[0] == b);
            assert(s.skip(1) =~= stuffed(rest));
            assert(unstuffed(s.skip(1), room - 1) == Ok::<Seq<u8>, Error>(rest));
            assert(unstuffed(s, room) == Ok::<Seq<u8>, Error>(seq![s[0]] + rest));
            assert(seq![b] + rest =~= data);
        }
    }
}

/// Round-trip law: decoding an encoded frame restores the payload exactly,
/// for every payload whose stuffed body reaches the decoder's minimum frame
/// length and that the decode capacity can hold.
pub proof fn lemma_round_trip(data: Seq<u8>, room: int)
    requires
        stuffed(data).len() >= 2,
        room >= data.len(),
    ensures
        decoded_frame(encoded_frame(data), room) == Ok::<Seq<u8>, Error>(data),
{
    let f = encoded_frame(data);
    assert(f.len() == stuffed(data).len() + 2);
    assert(f[0] == FRAME_BOUNDARY_MARKER);
    assert(f[f.len() - 1] == FRAME_BOUNDARY_MARKER);
    assert(f.subrange(1, f.len() - 1) =~= stuffed(data));
    lemma_unstuffed_stuffed(data, room);
}

} // verus!
