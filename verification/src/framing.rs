//! Length-prefixed frames: four bytes that hold a length, then that many bytes.

use vstd::prelude::*;

verus! {

/// In which order the four bytes of a length are written.
#[derive(Clone, Copy, Debug, PartialEq, Eq, Structural)]
pub enum ByteOrder {
    /// Least significant byte first.
    Little,
    /// Most significant byte first.
    Big,
}

/// The byte of `n` that counts for `256` to the power `place`.
pub open spec fn byte_at(n: nat, place: nat) -> u8
    decreases place,
{
    if place == 0 {
        (n % 256) as u8
    } else {
        byte_at(n / 256, (place - 1) as nat)
    }
}

/// The four lowest bytes of a length, in the given order.
pub open spec fn length_bytes(order: ByteOrder, n: nat) -> Seq<u8> {
    match order {
        ByteOrder::Little => seq![byte_at(n, 0), byte_at(n, 1), byte_at(n, 2), byte_at(n, 3)],
        ByteOrder::Big => seq![byte_at(n, 3), byte_at(n, 2), byte_at(n, 1), byte_at(n, 0)],
    }
}

/// The number that four bytes in the given order stand for.
pub open spec fn length_value(order: ByteOrder, bytes: Seq<u8>) -> nat {
    match order {
        ByteOrder::Little => (bytes[0] + 256 * bytes[1] + 65536 * bytes[2] + 16777216
            * bytes[3]) as nat,
        ByteOrder::Big => (bytes[3] + 256 * bytes[2] + 65536 * bytes[1] + 16777216
            * bytes[0]) as nat,
    }
}

/// A payload behind its length.
pub open spec fn frame(order: ByteOrder, payload: Seq<u8>) -> Seq<u8> {
    length_bytes(order, payload.len()) + payload
}

/// What a reader takes off the front of a stream: the payload of the first frame and the rest of
/// the stream, or nothing while the frame is not complete.
pub open spec fn read_frame(order: ByteOrder, stream: Seq<u8>) -> Option<(Seq<u8>, Seq<u8>)> {
    let len = length_value(order, stream);
    if stream.len() < 4 || stream.len() < 4 + len {
        None
    } else {
        Some((stream.subrange(4, 4 + len as int), stream.skip(4 + len as int)))
    }
}

/// Several payloads, each behind its length, one after the other.
pub open spec fn stream_of(order: ByteOrder, payloads: Seq<Seq<u8>>) -> Seq<u8>
    decreases payloads.len(),
{
    if payloads.len() == 0 {
        Seq::empty()
    } else {
        frame(order, payloads[0]) + stream_of(order, payloads.drop_first())
    }
}

/// The payloads that a reader takes off a stream that ends with a complete frame.
pub open spec fn read_stream(order: ByteOrder, stream: Seq<u8>) -> Option<Seq<Seq<u8>>>
    decreases stream.len(),
{
    if stream.len() == 0 {
        Some(Seq::empty())
    } else {
        match read_frame(order, stream) {
            None => None,
            Some((payload, rest)) => match read_stream(order, rest) {
                None => None,
                Some(payloads) => Some(seq![payload] + payloads),
            },
        }
    }
}

/// The four bytes that announce a payload of `len` bytes. Of a length that does not fit in four
/// bytes, the four lowest are written.
pub fn length_header(order: ByteOrder, len: usize) -> (header: Vec<u8>)
    ensures
        header@ == length_bytes(order, len as nat),
{
    let b0: u8 = (len % 256) as u8;
    let b1: u8 = (len / 256 % 256) as u8;
    let b2: u8 = (len / 256 / 256 % 256) as u8;
    let b3: u8 = (len / 256 / 256 / 256 % 256) as u8;
    proof {
        reveal_with_fuel(byte_at, 4);
    }
    match order {
        ByteOrder::Little => vec![b0, b1, b2, b3],
        ByteOrder::Big => vec![b3, b2, b1, b0],
    }
}

/// A header is the length written in base 256 with four digits, the lowest digit at the left or at
/// the right.
pub proof fn law_header_spells_the_length(order: ByteOrder, len: usize, header: Vec<u8>)
    requires
        call_ensures(length_header, (order, len), header),
    ensures
        header@.len() == 4,
        order == ByteOrder::Little ==> {
            &&& header@[0] == len % 256
            &&& header@[1] == (len / 0x100) % 256
            &&& header@[2] == (len / 0x1_0000) % 256
            &&& header@[3] == (len / 0x100_0000) % 256
        },
        order == ByteOrder::Big ==> {
            &&& header@[3] == len % 256
            &&& header@[2] == (len / 0x100) % 256
            &&& header@[1] == (len / 0x1_0000) % 256
            &&& header@[0] == (len / 0x100_0000) % 256
        },
        length_bytes(order, len as nat) == header@,
{
    reveal_with_fuel(byte_at, 4);
}

/// The four bytes of a length are its four lowest digits in base 256, the lowest digit at the left
/// or at the right.
pub proof fn law_length_bytes_are_digits(order: ByteOrder, n: nat)
    ensures
        length_bytes(order, n).len() == 4,
        order == ByteOrder::Little ==> {
            &&& length_bytes(order, n)[0] == n % 256
            &&& length_bytes(order, n)[1] == (n / 0x100) % 256
            &&& length_bytes(order, n)[2] == (n / 0x1_0000) % 256
            &&& length_bytes(order, n)[3] == (n / 0x100_0000) % 256
        },
        order == ByteOrder::Big ==> {
            &&& length_bytes(order, n)[3] == n % 256
            &&& length_bytes(order, n)[2] == (n / 0x100) % 256
            &&& length_bytes(order, n)[1] == (n / 0x1_0000) % 256
            &&& length_bytes(order, n)[0] == (n / 0x100_0000) % 256
        },
{
    reveal_with_fuel(byte_at, 4);
}

/// A header is four bytes long and stands for the length modulo two to the power 32, in either
/// order.
pub proof fn law_header_value(order: ByteOrder, n: nat)
    ensures
        length_bytes(order, n).len() == 4,
        length_value(order, length_bytes(order, n)) == n % 0x1_0000_0000,
{
    reveal_with_fuel(byte_at, 4);
    let n1 = n / 256;
    let n2 = n1 / 256;
    let n3 = n2 / 256;
    assert(n == 256 * n1 + n % 256);
    assert(n1 == 256 * n2 + n1 % 256);
    assert(n2 == 256 * n3 + n2 % 256);
    assert(n3 == 256 * (n3 / 256) + n3 % 256);
    let low = n % 256 + 256 * (n1 % 256) + 65536 * (n2 % 256) + 16777216 * (n3 % 256);
    assert(n == low + 0x1_0000_0000 * (n3 / 256));
    assert(0 <= low < 0x1_0000_0000);
    assert(n % 0x1_0000_0000 == low);
}

/// A reader gets back the payload of a frame, and exactly what follows the frame stays for the
/// next read. The payload's length has to fit in the four bytes of the header.
pub proof fn law_frame_reads_back(order: ByteOrder, payload: Seq<u8>, rest: Seq<u8>)
    requires
        payload.len() < 0x1_0000_0000,
    ensures
        read_frame(order, frame(order, payload) + rest) == Some((payload, rest)),
{
    law_header_value(order, payload.len());
    let header = length_bytes(order, payload.len());
    let stream = frame(order, payload) + rest;
    assert(stream[0] == header[0] && stream[1] == header[1] && stream[2] == header[2]
        && stream[3] == header[3]);
    assert(length_value(order, stream) == payload.len());
    assert(stream.subrange(4, 4 + payload.len() as int) =~= payload);
    assert(stream.skip(4 + payload.len() as int) =~= rest);
}

/// A reader gets back every payload of a stream of frames, in order and unmixed.
pub proof fn law_stream_reads_back(order: ByteOrder, payloads: Seq<Seq<u8>>)
    requires
        forall|i: int| 0 <= i < payloads.len() ==> (#[trigger] payloads[i]).len() < 0x1_0000_0000,
    ensures
        read_stream(order, stream_of(order, payloads)) == Some(payloads),
    decreases payloads.len(),
{
    if payloads.len() == 0 {
        assert(payloads =~= Seq::empty());
    } else {
        let rest = payloads.drop_first();
        law_stream_reads_back(order, rest);
        law_frame_reads_back(order, payloads[0], stream_of(order, rest));
        law_header_value(order, payloads[0].len());
        assert(payloads =~= seq![payloads[0]] + rest);
    }
}

} // verus!
