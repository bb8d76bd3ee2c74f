//! What is read in a datagram, in plain bytes.
use crate::dhcp;
use crate::dhcp::{Arch, Packet, PacketError, PacketView, Stage};
use crate::net::Ipv4Addr;
use crate::options;
use crate::options::OptionError;
use crate::text;
use vstd::prelude::*;
use vstd::string::*;
use vstd::utf8::*;

verus! {

// ---------------------------------------------------------------------------
// Options on the wire

/// A piece of an option: its code, its length and its bytes.
pub open spec fn piece(code: u8, value: Seq<u8>) -> Seq<u8> {
    seq![code, value.len() as u8] + value
}

/// The options with one more piece of the option `code`, behind those that were read.
pub open spec fn joined(options: Map<u8, Seq<u8>>, code: u8, value: Seq<u8>) -> Map<u8, Seq<u8>> {
    options.insert(
        code,
        if options.contains_key(code) {
            options[code] + value
        } else {
            value
        },
    )
}

/// A reader joins the pieces of an option, skips padding, stops at the end, and goes on
/// behind each piece.
pub proof fn law_options_are_read_piece_by_piece(
    code: u8,
    value: Seq<u8>,
    rest: Seq<u8>,
    before: Map<u8, Seq<u8>>,
)
    requires
        1 <= code <= 254,
        value.len() <= 255,
    ensures
        options::read(piece(code, value) + rest, before) == options::read(
            rest,
            joined(before, code, value),
        ),
        options::read(seq![0u8] + rest, before) == options::read(rest, before),
        options::read(seq![255u8] + rest, before) == (before, Ok::<(), OptionError>(())),
        options::read(Seq::empty(), before) == (before, Ok::<(), OptionError>(())),
{
    let s = piece(code, value) + rest;
    assert(s.subrange(2, 2 + value.len() as int) =~= value);
    assert(s.skip(2 + value.len() as int) =~= rest);
    assert((seq![0u8] + rest).skip(1) =~= rest);
}

/// A code without a length, and a value that is cut off, are faults.
pub proof fn law_cut_options_are_faults(
    code: u8,
    len: u8,
    value: Seq<u8>,
    before: Map<u8, Seq<u8>>,
)
    requires
        1 <= code <= 254,
        value.len() < len,
    ensures
        options::read(seq![code], before).1 == Err::<(), OptionError>(OptionError::MissingLength),
        options::read(seq![code, len] + value, before).1 == Err::<(), OptionError>(
            OptionError::Truncated(code),
        ),
{
}

/// A value is written in pieces of up to 255 bytes, full ones first, and an empty one not
/// at all.
pub proof fn law_options_are_written_in_pieces(code: u8, value: Seq<u8>)
    ensures
        value.len() == 0 ==> options::encode(code, value).len() == 0,
        1 <= value.len() <= 255 ==> options::encode(code, value) == piece(code, value),
        value.len() > 255 ==> options::encode(code, value) == piece(code, value.take(255))
            + options::encode(code, value.skip(255)),
{
}

/// What a reader gets of a list of options: each value behind those of the same code.
pub proof fn law_collected_options(list: Seq<(u8, Seq<u8>)>, code: u8, value: Seq<u8>)
    ensures
        options::collect(Seq::empty()) == Map::<u8, Seq<u8>>::empty(),
        value.len() > 0 ==> options::collect(list.push((code, value))) == joined(
            options::collect(list),
            code,
            value,
        ),
        value.len() == 0 ==> options::collect(list.push((code, value))) == options::collect(list),
        options::encode_all(Seq::empty()).len() == 0,
        options::encode_all(list.push((code, value))) == options::encode_all(list)
            + options::encode(code, value),
{
    options::lemma_collect_push(list, code, value);
    options::lemma_encode_all_push(list, code, value);
}

// ---------------------------------------------------------------------------
// Messages

/// Whether a datagram begins as a request over Ethernet and has the cookie in front of
/// its options.
pub open spec fn framed(bytes: Seq<u8>) -> bool {
    &&& bytes.len() >= 240
    &&& bytes[0] == 1 && bytes[1] == 1 && bytes[2] == 6
    &&& bytes[236] == 99 && bytes[237] == 130 && bytes[238] == 83 && bytes[239] == 99
}

/// Whether the options are those of a client's message: one type that clients send, and
/// no option of a wrong length.
pub open spec fn sendable(options: Map<u8, Seq<u8>>) -> bool {
    &&& options.contains_key(53) && options[53].len() == 1
    &&& options[53][0] == 1 || options[53][0] == 3 || options[53][0] == 4 || options[53][0] == 7
        || options[53][0] == 8
    &&& options.contains_key(50) ==> options[50].len() == 4
    &&& options.contains_key(54) ==> options[54].len() == 4
    &&& options.contains_key(57) ==> options[57].len() == 2
    &&& options.contains_key(93) ==> options[93].len() > 0 && options[93].len() % 2 == 0
}

/// Whether a message holds what the bytes of its fixed part say, and these options.
pub open spec fn holds(p: PacketView, bytes: Seq<u8>, options: Map<u8, Seq<u8>>) -> bool {
    &&& p.header == bytes.take(236)
    &&& p.options == options
    &&& p.message == options[53][0]
    &&& p.mac == seq![bytes[28], bytes[29], bytes[30], bytes[31], bytes[32], bytes[33]]
    &&& p.ciaddr == (Ipv4Addr { a: bytes[12], b: bytes[13], c: bytes[14], d: bytes[15] })
    &&& p.giaddr == (Ipv4Addr { a: bytes[24], b: bytes[25], c: bytes[26], d: bytes[27] })
}

/// Whether every code of a list is that of an option.
pub open spec fn coded(list: Seq<(u8, Seq<u8>)>) -> bool {
    forall|i: int| 0 <= i < list.len() ==> 1 <= (#[trigger] list[i]).0 <= 254
}

proof fn lemma_framed(bytes: Seq<u8>, options: Map<u8, Seq<u8>>)
    requires
        framed(bytes),
        dhcp::all_options(bytes) == Ok::<Map<u8, Seq<u8>>, PacketError>(options),
    ensures
        sendable(options) <==> dhcp::packet(bytes) is Ok,
        dhcp::packet(bytes) matches Ok(p) ==> holds(p, bytes, options),
{
    let c = bytes.subrange(236, 240);
    assert(c =~= dhcp::cookie());
    if dhcp::packet(bytes) is Ok {
        assert(bytes.subrange(28, 34) =~= seq![
            bytes[28],
            bytes[29],
            bytes[30],
            bytes[31],
            bytes[32],
            bytes[33],
        ]);
    }
}

/// Every request whose options area is a list of options with an end is read, whatever
/// else its fixed part holds, exactly if its options are those of a client's message; and
/// it is read as what it holds.
pub proof fn law_requests_are_read(bytes: Seq<u8>, list: Seq<(u8, Seq<u8>)>, rest: Seq<u8>)
    requires
        framed(bytes),
        coded(list),
        bytes.skip(240) == options::encode_all(list) + seq![255u8] + rest,
        !options::collect(list).contains_key(52),
    ensures
        dhcp::packet(bytes) is Ok <==> sendable(options::collect(list)),
        dhcp::packet(bytes) matches Ok(p) ==> holds(p, bytes, options::collect(list)),
{
    dhcp::law_message_options_are_read_back(bytes, list, rest);
    lemma_framed(bytes, options::collect(list));
}

/// No datagram is read that is not framed as a request, and each is refused for the first
/// thing that is wrong with it.
pub proof fn law_unframed_datagrams_are_refused(bytes: Seq<u8>)
    ensures
        dhcp::packet(bytes) is Ok ==> framed(bytes),
        bytes.len() < 240 <==> dhcp::packet(bytes) == Err::<PacketView, PacketError>(
            PacketError::Short,
        ),
        bytes.len() >= 240 && !(bytes[0] == 1 && bytes[1] == 1 && bytes[2] == 6)
            <==> dhcp::packet(bytes) == Err::<PacketView, PacketError>(
            PacketError::NotEthernetRequest,
        ),
        bytes.len() >= 240 && bytes[0] == 1 && bytes[1] == 1 && bytes[2] == 6 && !framed(bytes)
            <==> dhcp::packet(bytes) == Err::<PacketView, PacketError>(PacketError::Cookie),
{
    if bytes.len() >= 240 {
        let c = bytes.subrange(236, 240);
        assert(c[0] == bytes[236] && c[1] == bytes[237] && c[2] == bytes[238] && c[3] == bytes[239]);
        if framed(bytes) {
            assert(c =~= dhcp::cookie());
        }
    }
}

/// Why a message with these options is refused.
pub proof fn law_refused_options(bytes: Seq<u8>, options: Map<u8, Seq<u8>>)
    requires
        framed(bytes),
        dhcp::all_options(bytes) == Ok::<Map<u8, Seq<u8>>, PacketError>(options),
    ensures
        match dhcp::packet(bytes) {
            Ok(_) => sendable(options),
            Err(PacketError::OptionLength(code)) => {
                &&& options.contains_key(code)
                &&& code == 53 && options[code].len() != 1 || (code == 50 || code == 54)
                    && options[code].len() != 4 || code == 57 && options[code].len() != 2
            },
            Err(PacketError::ArchitectureList) => options.contains_key(93) && (options[93].len()
                == 0 || options[93].len() % 2 == 1),
            Err(PacketError::MissingMessage) => !options.contains_key(53),
            Err(PacketError::UnsupportedMessage) => options.contains_key(53) && options[53].len()
                == 1 && !(options[53][0] == 1 || options[53][0] == 3 || options[53][0] == 4
                || options[53][0] == 7 || options[53][0] == 8),
            Err(_) => false,
        },
{
    lemma_framed(bytes, options);
    let c = bytes.subrange(236, 240);
    assert(c =~= dhcp::cookie());
}

/// Where option 52 says so, the options go on in the `file` field, in the `sname` field,
/// or in both, in that order.
pub proof fn law_overloaded_fields_are_read(
    bytes: Seq<u8>,
    main: Seq<(u8, Seq<u8>)>,
    file: Seq<(u8, Seq<u8>)>,
    name: Seq<(u8, Seq<u8>)>,
    rest: Seq<u8>,
    file_rest: Seq<u8>,
    name_rest: Seq<u8>,
    overload: u8,
)
    requires
        framed(bytes),
        coded(main) && coded(file) && coded(name),
        bytes.skip(240) == options::encode_all(main) + seq![255u8] + rest,
        bytes.subrange(108, 236) == options::encode_all(file) + seq![255u8] + file_rest,
        bytes.subrange(44, 108) == options::encode_all(name) + seq![255u8] + name_rest,
        options::collect(main).contains_key(52),
        options::collect(main)[52] == seq![overload],
    ensures
        overload == 1 ==> dhcp::all_options(bytes) == Ok::<Map<u8, Seq<u8>>, PacketError>(
            options::collect(main + file),
        ),
        overload == 2 ==> dhcp::all_options(bytes) == Ok::<Map<u8, Seq<u8>>, PacketError>(
            options::collect(main + name),
        ),
        overload == 3 ==> dhcp::all_options(bytes) == Ok::<Map<u8, Seq<u8>>, PacketError>(
            options::collect(main + file + name),
        ),
        overload == 0 || overload > 3 ==> dhcp::all_options(bytes) == Err::<
            Map<u8, Seq<u8>>,
            PacketError,
        >(PacketError::Overload),
{
    let end = seq![255u8];
    lemma_read_on(Seq::empty(), main, end + rest);
    assert(Seq::<(u8, Seq<u8>)>::empty() + main =~= main);
    assert(bytes.skip(240) =~= options::encode_all(main) + (end + rest));
    lemma_read_on(main, file, end + file_rest);
    assert(bytes.subrange(108, 236) =~= options::encode_all(file) + (end + file_rest));
    lemma_read_on(main, name, end + name_rest);
    assert(bytes.subrange(44, 108) =~= options::encode_all(name) + (end + name_rest));
    lemma_read_on(main + file, name, end + name_rest);
}

/// Reading goes on where it stopped.
proof fn lemma_read_on(a: Seq<(u8, Seq<u8>)>, b: Seq<(u8, Seq<u8>)>, rest: Seq<u8>)
    requires
        coded(b),
    ensures
        options::read(options::encode_all(b) + rest, options::collect(a)) == options::read(
            rest,
            options::collect(a + b),
        ),
    decreases b.len(),
{
    if b.len() == 0 {
        assert(options::encode_all(b) + rest =~= rest);
        assert(a + b =~= a);
    } else {
        let (code, value) = b.last();
        let front = b.drop_last();
        assert(b[b.len() - 1].0 == code);
        assert forall|i: int| 0 <= i < front.len() implies 1 <= (#[trigger] front[i]).0 <= 254 by {
            assert(b[i] == front[i]);
        }
        assert(options::encode_all(b) + rest =~= options::encode_all(front) + (options::encode(
            code,
            value,
        ) + rest));
        lemma_read_on(a, front, options::encode(code, value) + rest);
        options::lemma_read_encode(code, value, rest, options::collect(a + front));
        assert(a + b =~= (a + front).push((code, value)));
        options::lemma_collect_push(a + front, code, value);
    }
}

} // verus!
