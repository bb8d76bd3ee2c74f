//! What a client's options show of it, in plain bytes.
use crate::clients;
use crate::clients::{Client, Clients};
use crate::config::Config;
use crate::datagrams;
use crate::dhcp;
use crate::dhcp::{Arch, PacketError, PacketView, Stage};
use crate::net::Ipv4Addr;
use crate::reply;
use crate::reply::{ReplyError, ReplyView};
use crate::server;
use crate::server::OutcomeView;
use crate::text;
use std::sync::Arc;
use vstd::prelude::*;
use vstd::string::*;
use vstd::utf8::*;

verus! {

/// The bytes of `iPXE`.
pub open spec fn ipxe_tag() -> Seq<u8> {
    seq![105u8, 80, 88, 69]
}

/// The bytes of `PXEClient`.
pub open spec fn pxe_tag() -> Seq<u8> {
    seq![80u8, 88, 69, 67, 108, 105, 101, 110, 116]
}

/// The bytes of `Arch:`.
pub open spec fn arch_tag() -> Seq<u8> {
    seq![65u8, 114, 99, 104, 58]
}

proof fn lemma_tags()
    ensures
        encode_utf8("iPXE"@) == ipxe_tag(),
        encode_utf8("PXEClient"@) == pxe_tag(),
        encode_utf8("Arch:"@) == arch_tag(),
{
    reveal_strlit("iPXE");
    reveal_strlit("PXEClient");
    reveal_strlit("Arch:");
    is_ascii_chars_encode_utf8("iPXE"@);
    is_ascii_chars_encode_utf8("PXEClient"@);
    is_ascii_chars_encode_utf8("Arch:"@);
    assert(encode_utf8("iPXE"@) =~= ipxe_tag());
    assert(encode_utf8("PXEClient"@) =~= pxe_tag());
    assert(encode_utf8("Arch:"@) =~= arch_tag());
}

/// The code at the place `i` of a list of two-byte codes.
pub open spec fn code_at(list: Seq<u8>, i: int) -> int {
    list[2 * i] * 256 + list[2 * i + 1]
}

/// Whether the code is that of a machine that can be booted: BIOS, UEFI on x86-64, or
/// UEFI on ARM64.
pub open spec fn bootable(code: int) -> bool {
    code == 0 || code == 7 || code == 9 || code == 11
}

/// Whether the stage of a machine's firmware and its architecture are those of the code.
pub open spec fn is_machine(found: (Stage, Arch), code: int) -> bool {
    &&& code == 0 ==> found == (Stage::Bios, Arch::X86_64)
    &&& code == 7 || code == 9 ==> found == (Stage::Uefi, Arch::X86_64)
    &&& code == 11 ==> found == (Stage::Uefi, Arch::Arm64)
}

/// Whether the code at `i` is the first in the list that can be booted.
pub open spec fn first_bootable(list: Seq<u8>, i: int) -> bool {
    &&& 0 <= i && 2 * i + 1 < list.len()
    &&& bootable(code_at(list, i))
    &&& forall|j: int| 0 <= j < i ==> !bootable(#[trigger] code_at(list, j))
}

/// Whether no code in the list can be booted.
pub open spec fn none_bootable(list: Seq<u8>) -> bool {
    forall|j: int| 0 <= j && 2 * j + 1 < list.len() ==> !bootable(#[trigger] code_at(list, j))
}

proof fn lemma_first_bootable(list: Seq<u8>, i: int)
    requires
        first_bootable(list, i),
    ensures
        dhcp::first_architecture(list) is Some,
        is_machine(dhcp::first_architecture(list)->0, code_at(list, i)),
    decreases list.len(),
{
    if i > 0 {
        assert(!bootable(code_at(list, 0)));
        let rest = list.skip(2);
        assert(code_at(rest, i - 1) == code_at(list, i));
        assert forall|j: int| 0 <= j < i - 1 implies !bootable(#[trigger] code_at(rest, j)) by {
            assert(code_at(rest, j) == code_at(list, j + 1));
        }
        lemma_first_bootable(rest, i - 1);
    }
}

proof fn lemma_none_bootable(list: Seq<u8>)
    requires
        none_bootable(list),
    ensures
        dhcp::first_architecture(list) is None,
    decreases list.len(),
{
    if list.len() >= 2 {
        assert(!bootable(code_at(list, 0)));
        let rest = list.skip(2);
        assert forall|j: int| 0 <= j && 2 * j + 1 < rest.len() implies !bootable(
            #[trigger] code_at(rest, j),
        ) by {
            assert(code_at(rest, j) == code_at(list, j + 1));
        }
        lemma_none_bootable(rest);
    }
}

/// The first code in option 93 that can be booted tells the architecture, and for a client
/// without a user class also the stage, whatever the vendor class says.
pub proof fn law_listed_architecture(options: Map<u8, Seq<u8>>, i: int)
    requires
        options.contains_key(93),
        first_bootable(options[93], i),
    ensures
        !options.contains_key(77) ==> is_machine(
            dhcp::stage(options),
            code_at(options[93], i),
        ),
        ({
            let arch = dhcp::stage(options).1;
            let code = code_at(options[93], i);
            &&& code == 11 ==> arch == Arch::Arm64
            &&& code != 11 ==> arch == Arch::X86_64
        }),
{
    lemma_first_bootable(options[93], i);
}

/// The classes in a list, each with its length in front.
pub open spec fn class_list(classes: Seq<Seq<u8>>) -> Seq<u8>
    decreases classes.len(),
{
    if classes.len() == 0 {
        Seq::empty()
    } else {
        seq![classes[0].len() as u8] + classes[0] + class_list(classes.skip(1))
    }
}

proof fn lemma_class_list(classes: Seq<Seq<u8>>)
    requires
        forall|i: int| 0 <= i < classes.len() ==> (#[trigger] classes[i]).len() <= 255,
    ensures
        dhcp::lists_ipxe(class_list(classes)) <==> classes.contains(ipxe_tag()),
    decreases classes.len(),
{
    lemma_tags();
    if classes.len() > 0 {
        let all = class_list(classes);
        let first = classes[0];
        let rest = classes.skip(1);
        assert forall|i: int| 0 <= i < rest.len() implies (#[trigger] rest[i]).len() <= 255 by {
            assert(classes[i + 1].len() <= 255);
        }
        lemma_class_list(rest);
        assert(all[0] == first.len());
        assert(all.subrange(1, 1 + all[0]) =~= first);
        assert(all.skip(1 + all[0]) =~= class_list(rest));
        if rest.contains(ipxe_tag()) {
            let i = choose|i: int| 0 <= i < rest.len() && rest[i] == ipxe_tag();
            assert(classes[i + 1] == ipxe_tag());
        }
        if classes.contains(ipxe_tag()) && first != ipxe_tag() {
            let i = choose|i: int| 0 <= i < classes.len() && classes[i] == ipxe_tag();
            assert(rest[i - 1] == ipxe_tag());
        }
    }
}

/// A client whose user class, option 77, is `iPXE`, alone or in a list, is iPXE; one with
/// a list of other classes is not.
pub proof fn law_user_class(options: Map<u8, Seq<u8>>, classes: Seq<Seq<u8>>)
    requires
        options.contains_key(77),
        options[77] == ipxe_tag() || options[77] == class_list(classes),
        forall|i: int| 0 <= i < classes.len() ==> (#[trigger] classes[i]).len() <= 255,
    ensures
        dhcp::stage(options).0 == Stage::Ipxe <==> options[77] == ipxe_tag() || classes.contains(
            ipxe_tag(),
        ),
{
    lemma_tags();
    lemma_class_list(classes);
    if options[77] != ipxe_tag() && !classes.contains(ipxe_tag()) {
        let found = dhcp::stage(options).0;
        if options.contains_key(93) {
            lemma_never_ipxe(options[93]);
        }
    }
}

proof fn lemma_never_ipxe(list: Seq<u8>)
    ensures
        dhcp::first_architecture(list) matches Some(found) ==> found.0 != Stage::Ipxe,
    decreases list.len(),
{
    if list.len() >= 2 {
        lemma_never_ipxe(list.skip(2));
    }
}

/// Whether `s` begins with `tag`.
pub open spec fn begins(s: Seq<u8>, tag: Seq<u8>) -> bool {
    tag.len() <= s.len() && forall|i: int| 0 <= i < tag.len() ==> s[i] == #[trigger] tag[i]
}

proof fn lemma_begins(s: Seq<u8>, tag: Seq<u8>)
    ensures
        begins(s, tag) == text::has_prefix(s, tag),
{
    if begins(s, tag) {
        assert(s.take(tag.len() as int) =~= tag);
    }
    if text::has_prefix(s, tag) {
        assert forall|i: int| 0 <= i < tag.len() implies s[i] == #[trigger] tag[i] by {
            assert(s.take(tag.len() as int)[i] == tag[i]);
        }
    }
}

/// A client that is neither iPXE nor PXE, and lists no architecture that can be booted, is
/// an operating system.
pub proof fn law_operating_systems(options: Map<u8, Seq<u8>>)
    requires
        !options.contains_key(77),
        options.contains_key(93) ==> none_bootable(options[93]),
        options.contains_key(60) ==> !begins(options[60], pxe_tag()),
    ensures
        dhcp::stage(options) == (Stage::Os, Arch::Unknown),
{
    lemma_tags();
    if options.contains_key(93) {
        lemma_none_bootable(options[93]);
    }
    if options.contains_key(60) {
        lemma_begins(options[60], pxe_tag());
    }
}

/// Whether `tag` stands in `s` at `i`.
pub open spec fn tag_at(s: Seq<u8>, i: int, tag: Seq<u8>) -> bool {
    i + tag.len() <= s.len() && s.subrange(i, i + tag.len()) == tag
}

proof fn lemma_index_of(s: Seq<u8>, tag: Seq<u8>, n: int)
    requires
        0 <= n,
        tag_at(s, n, tag),
        forall|j: int| 0 <= j < n ==> !#[trigger] tag_at(s, j, tag),
    ensures
        text::index_of(s, tag) == Some(n),
    decreases s.len(),
{
    lemma_begins(s, tag);
    assert(tag_at(s, 0, tag) == text::has_prefix(s, tag)) by {
        if tag.len() <= s.len() {
            assert(s.subrange(0, tag.len() as int) =~= s.take(tag.len() as int));
        }
    }
    if n > 0 {
        assert(!tag_at(s, 0, tag));
        let rest = s.skip(1);
        assert(rest.subrange(n - 1, n - 1 + tag.len()) =~= s.subrange(n, n + tag.len()));
        assert forall|j: int| 0 <= j < n - 1 implies !#[trigger] tag_at(rest, j, tag) by {
            assert(!tag_at(s, j + 1, tag));
            if j + tag.len() <= rest.len() {
                assert(rest.subrange(j, j + tag.len()) =~= s.subrange(j + 1, j + 1 + tag.len()));
            }
        }
        lemma_index_of(rest, tag, n - 1);
    }
}

proof fn lemma_no_index_of(s: Seq<u8>, tag: Seq<u8>)
    requires
        tag.len() > 0,
        forall|j: int| 0 <= j ==> !#[trigger] tag_at(s, j, tag),
    ensures
        text::index_of(s, tag) is None,
    decreases s.len(),
{
    assert(!tag_at(s, 0, tag));
    assert(tag_at(s, 0, tag) == text::has_prefix(s, tag)) by {
        if tag.len() <= s.len() {
            assert(s.subrange(0, tag.len() as int) =~= s.take(tag.len() as int));
        }
    }
    if s.len() > 0 {
        let rest = s.skip(1);
        assert forall|j: int| 0 <= j implies !#[trigger] tag_at(rest, j, tag) by {
            assert(!tag_at(s, j + 1, tag));
            if j + tag.len() <= rest.len() {
                assert(rest.subrange(j, j + tag.len()) =~= s.subrange(j + 1, j + 1 + tag.len()));
            }
        }
        lemma_no_index_of(rest, tag);
    }
}

/// The number that five digits denote.
pub open spec fn five_digits(s: Seq<u8>, i: int) -> int {
    (s[i] - 48) * 10000 + (s[i + 1] - 48) * 1000 + (s[i + 2] - 48) * 100 + (s[i + 3] - 48) * 10 + (
    s[i + 4] - 48)
}

/// A PXE client that lists no architecture that can be booted tells it in the five digits
/// behind the first `Arch:` of its vendor class; without these it is unknown.
pub proof fn law_vendor_architecture(options: Map<u8, Seq<u8>>, n: int)
    requires
        !options.contains_key(77),
        options.contains_key(93) ==> none_bootable(options[93]),
        options.contains_key(60),
        begins(options[60], pxe_tag()),
        valid_utf8(options[60]),
        0 <= n && n + 10 <= options[60].len(),
        tag_at(options[60], n, arch_tag()),
        forall|j: int| 0 <= j < n ==> !#[trigger] tag_at(options[60], j, arch_tag()),
        forall|k: int| n + 5 <= k < n + 10 ==> 48 <= #[trigger] options[60][k] <= 57,
    ensures
        ({
            let code = five_digits(options[60], n + 5);
            &&& bootable(code) ==> is_machine(dhcp::stage(options), code)
            &&& !bootable(code) ==> dhcp::stage(options) == (Stage::Unknown, Arch::Unknown)
        }),
{
    lemma_tags();
    let vendor = options[60];
    lemma_begins(vendor, pxe_tag());
    lemma_index_of(vendor, arch_tag(), n);
    if options.contains_key(93) {
        lemma_none_bootable(options[93]);
    }
    let digits = vendor.subrange(n + 5, n + 10);
    lemma_five_digits(digits);
    assert(five_digits(digits, 0) == five_digits(vendor, n + 5)) by {
        assert(digits[0] == vendor[n + 5] && digits[1] == vendor[n + 6] && digits[2] == vendor[n + 7]
            && digits[3] == vendor[n + 8] && digits[4] == vendor[n + 9]);
    }
}

proof fn lemma_five_digits(digits: Seq<u8>)
    requires
        digits.len() == 5,
        forall|k: int| 0 <= k < 5 ==> 48 <= #[trigger] digits[k] <= 57,
    ensures
        text::number(digits, 10, 65535) == if five_digits(digits, 0) <= 65535 {
            Some(five_digits(digits, 0) as nat)
        } else {
            None
        },
{
    assert(48 <= digits[0] <= 57);
    assert(text::unsigned_digits(digits) == digits);
    assert(text::all_digits(digits, 10));
    let d4 = digits.drop_last();
    let d3 = d4.drop_last();
    let d2 = d3.drop_last();
    let d1 = d2.drop_last();
    assert(text::digits_value(d1.drop_last(), 10) == 0);
    assert(d1.last() == digits[0] && d2.last() == digits[1] && d3.last() == digits[2] && d4.last()
        == digits[3]);
    assert(text::digits_value(d1, 10) == digits[0] - 48);
    assert(text::digits_value(d2, 10) == (digits[0] - 48) * 10 + (digits[1] - 48));
    assert(text::digits_value(d3, 10) == (digits[0] - 48) * 100 + (digits[1] - 48) * 10 + (digits[2]
        - 48));
    assert(text::digits_value(d4, 10) == (digits[0] - 48) * 1000 + (digits[1] - 48) * 100 + (
    digits[2] - 48) * 10 + (digits[3] - 48));
}

/// A PXE client that tells no architecture anywhere is unknown.
pub proof fn law_unknown_machines(options: Map<u8, Seq<u8>>)
    requires
        !options.contains_key(77),
        options.contains_key(93) ==> none_bootable(options[93]),
        options.contains_key(60),
        begins(options[60], pxe_tag()),
        forall|j: int| 0 <= j ==> !#[trigger] tag_at(options[60], j, arch_tag()),
    ensures
        dhcp::stage(options) == (Stage::Unknown, Arch::Unknown),
{
    lemma_tags();
    lemma_begins(options[60], pxe_tag());
    lemma_no_index_of(options[60], arch_tag());
    if options.contains_key(93) {
        lemma_none_bootable(options[93]);
    }
}

/// A client gets the specific routes exactly if it asks for option 121 and its stage is
/// not that of a machine's firmware.
pub proof fn law_route_mode(options: Map<u8, Seq<u8>>)
    ensures
        dhcp::classless(options) <==> options.contains_key(55) && (exists|i: int|
            0 <= i < options[55].len() && #[trigger] options[55][i] == 121) && dhcp::stage(
            options,
        ).0 != Stage::Bios && dhcp::stage(options).0 != Stage::Uefi,
{
    let list = options[55];
    assert(list.contains(121) <==> exists|i: int| 0 <= i < list.len() && #[trigger] list[i] == 121);
}

/// The names of stages and architectures, under which clients are counted and boot files
/// are configured, differ; those of firmware are the boot types of the table.
pub proof fn law_stage_names()
    ensures
        dhcp::stage_name(Stage::Bios) == "bios"@,
        dhcp::stage_name(Stage::Uefi) == "uefi"@,
        forall|a: Stage, b: Stage| #[trigger]
            dhcp::stage_name(a) == #[trigger] dhcp::stage_name(b) ==> a == b,
        dhcp::arch_name(Arch::X86_64) == "x86_64"@,
        dhcp::arch_name(Arch::Arm64) == "arm64"@,
        forall|a: Arch, b: Arch| #[trigger]
            dhcp::arch_name(a) == #[trigger] dhcp::arch_name(b) ==> a == b,
{
    reveal_strlit("bios");
    reveal_strlit("uefi");
    reveal_strlit("ipxe");
    reveal_strlit("os");
    reveal_strlit("unknown");
    reveal_strlit("x86_64");
    reveal_strlit("arm64");
    assert("bios"@[0] == 'b' && "uefi"@[0] == 'u' && "ipxe"@[0] == 'i' && "os"@[0] == 'o');
    assert("unknown"@.len() == 7 && "uefi"@.len() == 4);
    assert("x86_64"@[0] == 'x' && "arm64"@[0] == 'a' && "unknown"@[0] == 'u');
}

// ---------------------------------------------------------------------------
// Boot modes

/// Firmware in the mode of the client's row is answered as any other client is, and in the
/// other mode it is not answered at all.
pub proof fn law_boot_mode_of_the_row(
    snapshot: Option<Arc<Clients>>,
    config: Config,
    server: Ipv4Addr,
    datagram: Seq<u8>,
    packet: PacketView,
    client: Client,
)
    requires
        dhcp::packet(datagram) == Ok::<PacketView, PacketError>(packet),
        server::client_of(snapshot, packet.mac) == Some(client),
        client.boot_type@ == "bios"@ || client.boot_type@ == "uefi"@,
    ensures
        ({
            let stage = dhcp::stage(packet.options).0;
            let other = stage == Stage::Bios && client.boot_type@ == "uefi"@ || stage
                == Stage::Uefi && client.boot_type@ == "bios"@;
            let outcome = server::outcome(snapshot, config, server, datagram);
            &&& other ==> outcome == OutcomeView::BootModeMismatch
            &&& !other ==> outcome == match reply::reply_to(packet, client, config, server) {
                Ok(Some(reply)) => OutcomeView::Send(reply),
                Ok(None) => OutcomeView::NoResponse,
                Err(error) => OutcomeView::Error(error),
            }
            &&& dhcp::mode_mismatch(packet.options, client.boot_type@) == other
        }),
{
    reveal_strlit("bios");
    reveal_strlit("uefi");
    assert("bios"@[0] != "uefi"@[0]);
}

} // verus!
