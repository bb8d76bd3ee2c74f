//! DHCP options on the wire: code, length and value, with long values in several
//! pieces.
use std::collections::BTreeMap;
use vstd::prelude::*;

verus! {

/// `n` in two bytes, the high one first.
pub open spec fn be16(n: u16) -> Seq<u8> {
    seq![(n / 256) as u8, (n % 256) as u8]
}

/// `n` in four bytes, the highest first.
pub open spec fn be32(n: u32) -> Seq<u8> {
    seq![
        (n / 0x100_0000) as u8,
        (n / 0x1_0000 % 256) as u8,
        (n / 0x100 % 256) as u8,
        (n % 256) as u8,
    ]
}

pub fn be16_bytes(n: u16) -> (bytes: [u8; 2])
    ensures
        bytes@ == be16(n),
{
    let bytes: [u8; 2] = [(n / 256) as u8, (n % 256) as u8];
    assert(bytes@ =~= be16(n));
    bytes
}

pub fn be32_bytes(n: u32) -> (bytes: [u8; 4])
    ensures
        bytes@ == be32(n),
{
    let bytes: [u8; 4] = [
        (n / 0x100_0000) as u8,
        (n / 0x1_0000 % 256) as u8,
        (n / 0x100 % 256) as u8,
        (n % 256) as u8,
    ];
    assert(bytes@ =~= be32(n));
    bytes
}

/// The number in two bytes, the high one first.
pub open spec fn u16_at(s: Seq<u8>, i: int) -> nat {
    (s[i] * 256 + s[i + 1]) as nat
}

/// The number in four bytes, the highest first.
pub open spec fn u32_at(s: Seq<u8>, i: int) -> nat {
    (((s[i] * 256 + s[i + 1]) * 256 + s[i + 2]) * 256 + s[i + 3]) as nat
}

pub fn read_u16(s: &[u8], i: usize) -> (n: u16)
    requires
        i + 2 <= s@.len(),
    ensures
        n == u16_at(s@, i as int),
{
    s[i] as u16 * 256 + s[i + 1] as u16
}

pub fn read_u32(s: &[u8], i: usize) -> (n: u32)
    requires
        i + 4 <= s@.len(),
    ensures
        n == u32_at(s@, i as int),
{
    ((s[i] as u32 * 256 + s[i + 1] as u32) * 256 + s[i + 2] as u32) * 256 + s[i + 3] as u32
}

/// What ends the reading of an options area early.
#[derive(Debug, Clone, Copy, PartialEq, Eq, Structural)]
pub enum OptionError {
    /// An option code is the last byte.
    MissingLength,
    /// The value of the option with that code is cut off.
    Truncated(u8),
}

/// The values by code.
pub open spec fn values(options: Map<u8, Vec<u8>>) -> Map<u8, Seq<u8>> {
    options.map_values(|v: Vec<u8>| v@)
}

/// `options` with `value` appended to the option `code`.
pub open spec fn append(options: Map<u8, Seq<u8>>, code: u8, value: Seq<u8>) -> Map<
    u8,
    Seq<u8>,
> {
    if options.contains_key(code) {
        options.insert(code, options[code] + value)
    } else {
        options.insert(code, value)
    }
}

/// Reads an options area into `options`: code 0 is padding, code 255 ends the
/// area, and the pieces of one option are joined. The second component tells how
/// the reading ended; what was read before an error stays in the first.
pub open spec fn read(bytes: Seq<u8>, options: Map<u8, Seq<u8>>) -> (
    Map<u8, Seq<u8>>,
    Result<(), OptionError>,
)
    decreases bytes.len(),
{
    if bytes.len() == 0 || bytes[0] == 255 {
        (options, Ok(()))
    } else if bytes[0] == 0 {
        read(bytes.skip(1), options)
    } else if bytes.len() < 2 {
        (options, Err(OptionError::MissingLength))
    } else if bytes.len() < 2 + bytes[1] {
        (options, Err(OptionError::Truncated(bytes[0])))
    } else {
        read(
            bytes.skip(2 + bytes[1]),
            append(options, bytes[0], bytes.subrange(2, 2 + bytes[1])),
        )
    }
}

pub fn read_options(bytes: &[u8], options: &mut BTreeMap<u8, Vec<u8>>) -> (end: Result<
    (),
    OptionError,
>)
    ensures
        (values(final(options)@), end) == read(bytes@, values(old(options)@)),
{
    let mut pos: usize = 0;
    assert(bytes@.skip(0) =~= bytes@);
    while pos < bytes.len()
        invariant
            pos <= bytes@.len(),
            read(bytes@.skip(pos as int), values(options@)) == read(bytes@, values(old(options)@)),
        decreases bytes.len() - pos,
    {
        let ghost rest = bytes@.skip(pos as int);
        let code: u8 = bytes[pos];
        assert(rest[0] == code);
        if code == 255 {
            return Ok(());
        }
        if code == 0 {
            pos = pos + 1;
            assert(bytes@.skip(pos as int) =~= rest.skip(1));
            continue;
        }
        if pos + 1 >= bytes.len() {
            return Err(OptionError::MissingLength);
        }
        let len: usize = bytes[pos + 1] as usize;
        assert(rest[1] == len);
        pos = pos + 2;
        if len > bytes.len() - pos {
            return Err(OptionError::Truncated(code));
        }
        let ghost before = values(options@);
        let piece: &[u8] = &bytes[pos..pos + len];
        assert(piece@ =~= rest.subrange(2, 2 + len));
        let mut value: Vec<u8> = match options.get(&code) {
            Some(v) => v.clone(),
            None => Vec::new(),
        };
        let ghost start = value@;
        value.extend_from_slice(piece);
        assert(value@ =~= start + piece@);
        options.insert(code, value);
        assert(values(options@) =~= append(before, code, piece@));
        pos = pos + len;
        assert(bytes@.skip(pos as int) =~= rest.skip(2 + len));
    }
    Ok(())
}

/// The wire form of an option: pieces of up to 255 bytes, each with the code and
/// its length in front. An empty value takes no bytes at all.
pub open spec fn encode(code: u8, value: Seq<u8>) -> Seq<u8>
    decreases value.len(),
{
    if value.len() == 0 {
        Seq::empty()
    } else if value.len() <= 255 {
        seq![code, value.len() as u8] + value
    } else {
        seq![code, 255] + value.take(255) + encode(code, value.skip(255))
    }
}

/// Appends an option to a message.
pub fn option(out: &mut Vec<u8>, code: u8, value: &[u8])
    ensures
        final(out)@ == old(out)@ + encode(code, value@),
{
    let mut pos: usize = 0;
    assert(value@.skip(0) =~= value@);
    while value.len() - pos > 255
        invariant
            pos <= value@.len(),
            out@ + encode(code, value@.skip(pos as int)) =~= old(out)@ + encode(code, value@),
        decreases value.len() - pos,
    {
        let ghost rest = value@.skip(pos as int);
        let piece: &[u8] = &value[pos..pos + 255];
        assert(piece@ =~= rest.take(255));
        assert(value@.skip(pos + 255) =~= rest.skip(255));
        let ghost start = out@;
        out.push(code);
        out.push(255);
        out.extend_from_slice(piece);
        assert(out@ =~= start + (seq![code, 255] + rest.take(255)));
        pos = pos + 255;
    }
    if pos < value.len() {
        let ghost start = out@;
        let piece: &[u8] = &value[pos..value.len()];
        assert(piece@ =~= value@.skip(pos as int));
        out.push(code);
        out.push(piece.len() as u8);
        out.extend_from_slice(piece);
        assert(out@ =~= start + (seq![code, piece@.len() as u8] + piece@));
    }
}

/// The wire form of a list of options.
pub open spec fn encode_all(options: Seq<(u8, Seq<u8>)>) -> Seq<u8>
    decreases options.len(),
{
    if options.len() == 0 {
        Seq::empty()
    } else {
        encode_all(options.drop_last()) + encode(options.last().0, options.last().1)
    }
}

/// What a receiver reads of a list of options.
pub open spec fn collect(options: Seq<(u8, Seq<u8>)>) -> Map<u8, Seq<u8>>
    decreases options.len(),
{
    if options.len() == 0 {
        Map::empty()
    } else if options.last().1.len() == 0 {
        collect(options.drop_last())
    } else {
        append(collect(options.drop_last()), options.last().0, options.last().1)
    }
}

pub proof fn lemma_encode_all_push(options: Seq<(u8, Seq<u8>)>, code: u8, value: Seq<u8>)
    ensures
        encode_all(options.push((code, value))) == encode_all(options) + encode(code, value),
{
    assert(options.push((code, value)).drop_last() =~= options);
}

pub proof fn lemma_encode_all_add(a: Seq<(u8, Seq<u8>)>, b: Seq<(u8, Seq<u8>)>)
    ensures
        encode_all(a + b) == encode_all(a) + encode_all(b),
    decreases b.len(),
{
    if b.len() == 0 {
        assert(a + b =~= a);
        assert(encode_all(a) + encode_all(b) =~= encode_all(a));
    } else {
        assert((a + b).drop_last() =~= a + b.drop_last());
        lemma_encode_all_add(a, b.drop_last());
        assert(encode_all(a + b) =~= encode_all(a) + encode_all(b));
    }
}

/// Reading back one encoded option gives its value.
pub proof fn lemma_read_encode(
    code: u8,
    value: Seq<u8>,
    rest: Seq<u8>,
    options: Map<u8, Seq<u8>>,
)
    requires
        code != 0,
        code != 255,
    ensures
        value.len() > 0 ==> read(encode(code, value) + rest, options) == read(
            rest,
            append(options, code, value),
        ),
        value.len() == 0 ==> read(encode(code, value) + rest, options) == read(rest, options),
    decreases value.len(),
{
    let wire = encode(code, value) + rest;
    if value.len() == 0 {
        assert(wire =~= rest);
    } else if value.len() <= 255 {
        assert(wire.skip(2 + wire[1]) =~= rest);
        assert(wire.subrange(2, 2 + wire[1]) =~= value);
    } else {
        let tail = encode(code, value.skip(255)) + rest;
        assert(wire[1] == 255);
        assert(wire.skip(257) =~= tail);
        assert(wire.subrange(2, 257) =~= value.take(255));
        let once = append(options, code, value.take(255));
        lemma_read_encode(code, value.skip(255), rest, once);
        assert(value.take(255) + value.skip(255) =~= value);
        assert(append(once, code, value.skip(255)) =~= append(options, code, value)) by {
            if options.contains_key(code) {
                assert((options[code] + value.take(255)) + value.skip(255) =~= options[code]
                    + value);
            }
        }
    }
}

/// Reading back a list of encoded options gives the values of its members, those
/// of one code joined in order, and goes on behind it.
pub proof fn law_encoded_options_are_read_back(options: Seq<(u8, Seq<u8>)>, rest: Seq<u8>)
    requires
        forall|i: int| 0 <= i < options.len() ==> (#[trigger] options[i]).0 != 0,
        forall|i: int| 0 <= i < options.len() ==> (#[trigger] options[i]).0 != 255,
    ensures
        read(encode_all(options) + rest, Map::empty()) == read(rest, collect(options)),
    decreases options.len(),
{
    if options.len() == 0 {
        assert(encode_all(options) + rest =~= rest);
    } else {
        let (code, value) = options.last();
        let front = options.drop_last();
        assert(encode_all(options) + rest =~= encode_all(front) + (encode(code, value) + rest));
        law_encoded_options_are_read_back(front, encode(code, value) + rest);
        lemma_read_encode(code, value, rest, collect(front));
    }
}

/// The length of an encoded option: two more bytes for each piece of 255.
pub proof fn lemma_encode_len(code: u8, value: Seq<u8>)
    ensures
        encode(code, value).len() == value.len() + 2 * ((value.len() + 254) / 255),
    decreases value.len(),
{
    if value.len() > 255 {
        lemma_encode_len(code, value.skip(255));
    }
}

pub proof fn lemma_collect_push(options: Seq<(u8, Seq<u8>)>, code: u8, value: Seq<u8>)
    ensures
        collect(options.push((code, value))) == if value.len() == 0 {
            collect(options)
        } else {
            append(collect(options), code, value)
        },
{
    assert(options.push((code, value)).drop_last() =~= options);
}

/// A receiver of two lists, one behind the other, reads of each code what either of
/// them holds, where only one of them holds it.
pub proof fn lemma_collect_add(a: Seq<(u8, Seq<u8>)>, b: Seq<(u8, Seq<u8>)>)
    ensures
        forall|c: u8| #[trigger]
            collect(a + b).contains_key(c) <==> collect(a).contains_key(c) || collect(
                b,
            ).contains_key(c),
        forall|c: u8|
            collect(a).contains_key(c) && !collect(b).contains_key(c) ==> #[trigger] collect(
                a + b,
            )[c] == collect(a)[c],
        forall|c: u8|
            !collect(a).contains_key(c) && collect(b).contains_key(c) ==> #[trigger] collect(
                a + b,
            )[c] == collect(b)[c],
    decreases b.len(),
{
    if b.len() == 0 {
        assert(a + b =~= a);
    } else {
        let front = a + b.drop_last();
        assert((a + b).drop_last() =~= front);
        assert((a + b).last() == b.last());
        lemma_collect_add(a, b.drop_last());
        assert forall|c: u8| #[trigger] collect(a + b).contains_key(c) <==> collect(a).contains_key(c)
            || collect(b).contains_key(c) by {
            assert(collect(front).contains_key(c) <==> collect(a).contains_key(c) || collect(
                b.drop_last(),
            ).contains_key(c));
        }
        assert forall|c: u8|
            collect(a).contains_key(c) && !collect(b).contains_key(c) implies #[trigger] collect(
            a + b,
        )[c] == collect(a)[c] by {
            assert(collect(front)[c] == collect(a)[c]);
        }
        assert forall|c: u8|
            !collect(a).contains_key(c) && collect(b).contains_key(c) implies #[trigger] collect(
            a + b,
        )[c] == collect(b)[c] by {
            assert(collect(front).contains_key(c) <==> collect(a).contains_key(c) || collect(
                b.drop_last(),
            ).contains_key(c));
            if collect(b.drop_last()).contains_key(c) {
                assert(collect(front)[c] == collect(b.drop_last())[c]);
            }
        }
    }
}

} // verus!
