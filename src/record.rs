use vstd::bytes::*;
use vstd::prelude::*;
use vstd::utf8::*;

verus! {

/// The largest name, in UTF-8 bytes, that a connection header can carry.
pub const MAX_NAME_LEN: usize = 65535;

/// A length as two big-endian bytes.
pub open spec fn be_u16_bytes(n: nat) -> Seq<u8> {
    seq![(n / 256) as u8, (n % 256) as u8]
}

/// The length that two big-endian bytes encode.
pub open spec fn be_u16_value(hi: u8, lo: u8) -> nat {
    hi as nat * 256 + lo as nat
}

/// The connection header that announces `name`: its UTF-8 length as two big-endian
/// bytes, then its UTF-8 bytes.
pub open spec fn header_bytes(name: Seq<char>) -> Seq<u8> {
    be_u16_bytes(encode_utf8(name).len()) + encode_utf8(name)
}

/// Whether a header for `name` can be framed: its UTF-8 form fits the 16-bit length.
pub open spec fn name_fits(name: Seq<char>) -> bool {
    encode_utf8(name).len() <= MAX_NAME_LEN
}

/// Splits a complete header off the front of `buf`: the name's bytes and what follows
/// them, or `None` while the header has not fully arrived.
pub open spec fn split_header(buf: Seq<u8>) -> Option<(Seq<u8>, Seq<u8>)> {
    if buf.len() < 2 {
        None
    } else {
        let n = be_u16_value(buf[0], buf[1]) as int;
        if buf.len() < 2 + n {
            None
        } else {
            Some((buf.subrange(2, 2 + n), buf.subrange(2 + n, buf.len() as int)))
        }
    }
}

/// One record: the timestamp in milliseconds as eight little-endian bytes, the line's
/// bytes, and a newline.
pub open spec fn record_frame(timestamp: u64, line: Seq<u8>) -> Seq<u8> {
    spec_u64_to_le_bytes(timestamp) + line + seq![10u8]
}

/// The record of a text line: its UTF-8 bytes framed with the timestamp.
pub open spec fn record_bytes(timestamp: u64, line: Seq<char>) -> Seq<u8> {
    record_frame(timestamp, encode_utf8(line))
}

/// Appends the bytes of a slice to a buffer.
pub fn append_bytes(out: &mut Vec<u8>, src: &[u8])
    ensures
        final(out)@ == old(out)@ + src@,
{
    let ghost start = out@;
    let mut i: usize = 0;
    while i < src.len()
        invariant
            i <= src@.len(),
            out@ == start + src@.subrange(0, i as int),
        decreases src@.len() - i,
    {
        out.push(src[i]);
        i = i + 1;
        assert(out@ =~= start + src@.subrange(0, i as int));
    }
    assert(src@.subrange(0, src@.len() as int) =~= src@);
}

/// The header that announces `name`, or `None` when its UTF-8 form is longer than
/// the 16-bit length can say.
pub fn encode_header(name: &str) -> (r: Option<Vec<u8>>)
    ensures
        r is Some <==> name_fits(name@),
        r matches Some(v) ==> v@ == header_bytes(name@),
{
    let bytes = name.as_bytes();
    let len = bytes.len();
    if len > MAX_NAME_LEN {
        return None;
    }
    let mut v: Vec<u8> = Vec::new();
    v.push((len / 256) as u8);
    v.push((len % 256) as u8);
    append_bytes(&mut v, bytes);
    assert(v@ =~= header_bytes(name@));
    Some(v)
}

/// The bytes of one record.
pub fn encode_record(timestamp: u64, line: &str) -> (r: Vec<u8>)
    ensures
        r@ == record_bytes(timestamp, line@),
{
    let mut v = u64_to_le_bytes(timestamp);
    append_bytes(&mut v, line.as_bytes());
    v.push(10u8);
    assert(v@ =~= record_bytes(timestamp, line@));
    v
}

/// The UTF-8 form of a text without newline holds no newline byte: every byte of a
/// multi-byte character has its high bit set.
pub proof fn lemma_utf8_keeps_newlines_out(text: Seq<char>)
    requires
        !text.contains('\n'),
    ensures
        forall|j: int| 0 <= j < encode_utf8(text).len() ==> encode_utf8(text)[j] != 10u8,
    decreases text.len(),
{
    if text.len() > 0 {
        let rest = text.drop_first();
        assert(!rest.contains('\n')) by {
            if rest.contains('\n') {
                let k = choose|k: int| 0 <= k < rest.len() && rest[k] == '\n';
                assert(text[k + 1] == '\n');
            }
        }
        lemma_utf8_keeps_newlines_out(rest);
        let x = text[0] as u32;
        assert(text[0] != '\n');
        char_is_scalar(text[0]);
        char_u32_cast(text[0], x);
        assert(x != 10u32) by {
            if x == 10u32 {
                assert((10u32 as char) == '\n');
            }
        }
        let head = encode_scalar(x);
        assert(forall|j: int| 0 <= j < head.len() ==> head[j] != 10u8) by {
            assert(x <= 0x7F && x != 10 ==> (x & 0x7F) as u8 != 10u8) by (bit_vector);
            assert(forall|b: u8| (0xC0u8 | b) != 10u8) by (bit_vector);
            assert(forall|b: u8| (0xE0u8 | b) != 10u8) by (bit_vector);
            assert(forall|b: u8| (0xF0u8 | b) != 10u8) by (bit_vector);
            assert(forall|b: u8| (0x80u8 | b) != 10u8) by (bit_vector);
        }
        let all = encode_utf8(text);
        assert(all == head + encode_utf8(rest));
        assert forall|j: int| 0 <= j < all.len() implies all[j] != 10u8 by {
            if j >= head.len() {
                assert(all[j] == encode_utf8(rest)[j - head.len()]);
            }
        }
    }
}

/// A header for a name that fits is split back into exactly that name's bytes, which
/// decode to the name, followed by whatever came after the header.
pub proof fn lemma_header_round_trip(name: Seq<char>, rest: Seq<u8>)
    requires
        name_fits(name),
    ensures
        split_header(header_bytes(name) + rest) == Some((encode_utf8(name), rest)),
        valid_utf8(encode_utf8(name)),
        decode_utf8(encode_utf8(name)) == name,
{
    broadcast use encode_utf8_valid_utf8, encode_utf8_decode_utf8;

    let e = encode_utf8(name);
    let buf = header_bytes(name) + rest;
    let n = e.len() as int;
    assert(be_u16_value(buf[0], buf[1]) == n);
    assert(buf.subrange(2, 2 + n) =~= e);
    assert(buf.subrange(2 + n, buf.len() as int) =~= rest);
}

} // verus!
