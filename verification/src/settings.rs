//! Which names, files and configurations are accepted, in plain characters and numbers.
use crate::config;
use crate::config::{Architecture, ClientsSource, Config, ConfigError};
use crate::net::Ipv4Addr;
use crate::notations;
use crate::text;
use vstd::prelude::*;
use vstd::string::*;
use vstd::utf8::*;

verus! {

// ---------------------------------------------------------------------------
// Characters

/// White space is what Unicode counts as such: the five controls from the tab on, the
/// space, the next line, the no-break space, and the spaces and separators of other
/// scripts.
pub proof fn law_white_space(c: char)
    ensures
        text::whitespace(c) <==> c == '\u{9}' || c == '\u{a}' || c == '\u{b}' || c == '\u{c}' || c
            == '\u{d}' || c == ' ' || c == '\u{85}' || c == '\u{a0}' || c == '\u{1680}' || '\u{2000}'
            <= c <= '\u{200a}' || c == '\u{2028}' || c == '\u{2029}' || c == '\u{202f}' || c
            == '\u{205f}' || c == '\u{3000}',
{
}

/// Control characters are those before the space, the delete character, and the controls
/// behind it.
pub proof fn law_control_characters(c: char)
    ensures
        text::control(c) <==> c < ' ' || '\u{7f}' <= c <= '\u{9f}',
{
}

/// Whether a byte is an ASCII letter or digit.
pub open spec fn letter_or_digit(b: u8) -> bool {
    48 <= b <= 57 || 65 <= b <= 90 || 97 <= b <= 122
}

// ---------------------------------------------------------------------------
// Host names and time zones

/// A label of a host name: 1 to 63 letters, digits and hyphens, none of these at an end.
pub open spec fn host_label(s: Seq<u8>) -> bool {
    &&& 1 <= s.len() <= 63
    &&& s[0] != 45 && s[s.len() - 1] != 45
    &&& forall|i: int| 0 <= i < s.len() ==> letter_or_digit(#[trigger] s[i]) || s[i] == 45
}

/// A name without dots is a host name exactly if it is a label.
pub proof fn law_host_name_of_one_label(label: Seq<u8>)
    requires
        notations::lacks(label, 46),
    ensures
        config::hostname_ok(label) <==> host_label(label),
{
    notations::law_split(label, Seq::empty(), 46);
    if label.len() > 0 {
        assert(label.last() == label[label.len() - 1]);
    }
    let labels = text::split(label, 46);
    assert(labels == seq![label]);
    if host_label(label) {
        assert forall|i: int| 0 <= i < labels.len() implies config::label_ok(#[trigger] labels[i]) by {
            assert forall|j: int| 0 <= j < label.len() implies config::alphanumeric(
                #[trigger] label[j],
            ) || label[j] == 45 by {
                assert(letter_or_digit(label[j]) || label[j] == 45);
            }
        }
    }
    if config::hostname_ok(label) {
        assert(config::label_ok(labels[0]));
        assert forall|j: int| 0 <= j < label.len() implies letter_or_digit(#[trigger] label[j])
            || label[j] == 45 by {
            assert(config::alphanumeric(label[j]) || label[j] == 45);
        }
    }
}

/// A label, a dot and a name are a host name exactly if they are a label and a host name,
/// and not longer than 253 bytes without a final dot.
pub proof fn law_host_name_of_more_labels(label: Seq<u8>, rest: Seq<u8>)
    requires
        notations::lacks(label, 46),
        rest.len() > 0,
    ensures
        config::hostname_ok(label + seq![46u8] + rest) <==> host_label(label)
            && config::hostname_ok(rest) && label.len() + 1 + rest.len() - (if rest[rest.len() - 1]
            == 46 {
            1int
        } else {
            0
        }) <= 253,
{
    let dot = seq![46u8];
    let all = label + dot + rest;
    let bare = config::without_final_dot(all);
    let tail = config::without_final_dot(rest);
    assert(all.last() == rest.last());
    assert(bare =~= label + dot + tail);
    notations::law_split(label, tail, 46);
    law_host_name_of_one_label(label);
    notations::law_split(label, Seq::empty(), 46);
    let labels = text::split(bare, 46);
    let others = text::split(tail, 46);
    assert(labels == seq![label] + others);
    if config::hostname_ok(all) {
        assert(config::label_ok(labels[0]));
        assert forall|i: int| 0 <= i < others.len() implies config::label_ok(#[trigger] others[i]) by {
            assert(config::label_ok(labels[i + 1]));
        }
        lemma_label(label);
        if tail.len() == 0 {
            assert(others =~= seq![tail]) by {
                notations::law_split(tail, Seq::empty(), 46);
            }
            assert(config::label_ok(others[0]));
        }
    }
    if host_label(label) && config::hostname_ok(rest) {
        lemma_label(label);
        assert forall|i: int| 0 <= i < labels.len() implies config::label_ok(#[trigger] labels[i]) by {
            if i > 0 {
                assert(config::label_ok(others[i - 1]));
            }
        }
    }
}

proof fn lemma_label(label: Seq<u8>)
    ensures
        config::label_ok(label) == host_label(label),
{
    if label.len() > 0 {
        assert(label.last() == label[label.len() - 1]);
    }
    if config::label_ok(label) {
        assert forall|j: int| 0 <= j < label.len() implies letter_or_digit(#[trigger] label[j])
            || label[j] == 45 by {
            assert(config::alphanumeric(label[j]) || label[j] == 45);
        }
    }
    if host_label(label) {
        assert forall|j: int| 0 <= j < label.len() implies config::alphanumeric(#[trigger] label[j])
            || label[j] == 45 by {
            assert(letter_or_digit(label[j]) || label[j] == 45);
        }
    }
}

/// One final dot makes no difference to a host name.
pub proof fn law_final_dot(name: Seq<u8>)
    requires
        name.len() > 0,
        name[name.len() - 1] != 46,
    ensures
        config::hostname_ok(name + seq![46u8]) == config::hostname_ok(name),
{
    assert((name + seq![46u8]).drop_last() =~= name);
    assert(name.last() == name[name.len() - 1]);
}

/// A part of a time zone's name: letters, digits, underscores, hyphens and plus signs.
pub open spec fn zone_part(s: Seq<u8>) -> bool {
    &&& s.len() >= 1
    &&& forall|i: int|
        0 <= i < s.len() ==> letter_or_digit(#[trigger] s[i]) || s[i] == 95 || s[i] == 45 || s[i]
            == 43
}

proof fn lemma_zone_part(s: Seq<u8>)
    ensures
        config::timezone_part_ok(s) == zone_part(s),
{
    if config::timezone_part_ok(s) {
        assert forall|i: int| 0 <= i < s.len() implies letter_or_digit(#[trigger] s[i]) || s[i] == 95
            || s[i] == 45 || s[i] == 43 by {
            assert(config::alphanumeric(s[i]) || s[i] == 95 || s[i] == 45 || s[i] == 43);
        }
    }
    if zone_part(s) {
        assert forall|i: int| 0 <= i < s.len() implies config::alphanumeric(#[trigger] s[i]) || s[i]
            == 95 || s[i] == 45 || s[i] == 43 by {
            assert(letter_or_digit(s[i]) || s[i] == 95 || s[i] == 45 || s[i] == 43);
        }
    }
}

/// A time zone's name is one part, or a part, a slash and a name, and not longer than 255
/// bytes.
pub proof fn law_time_zones(part: Seq<u8>, rest: Seq<u8>)
    requires
        notations::lacks(part, 47),
    ensures
        config::timezone_ok(part) <==> zone_part(part) && part.len() <= 255,
        config::timezone_ok(part + seq![47u8] + rest) <==> zone_part(part) && config::timezone_ok(
            rest,
        ) && part.len() + 1 + rest.len() <= 255,
{
    let all = part + seq![47u8] + rest;
    notations::law_split(part, rest, 47);
    lemma_zone_part(part);
    let one = text::split(part, 47);
    assert(one == seq![part]);
    if config::timezone_ok(part) {
        assert(config::timezone_part_ok(one[0]));
    }
    let parts = text::split(all, 47);
    let others = text::split(rest, 47);
    assert(parts == seq![part] + others);
    if config::timezone_ok(all) {
        assert(config::timezone_part_ok(parts[0]));
        assert forall|i: int| 0 <= i < others.len() implies config::timezone_part_ok(
            #[trigger] others[i],
        ) by {
            assert(config::timezone_part_ok(parts[i + 1]));
        }
        if rest.len() == 0 {
            notations::law_split(rest, Seq::empty(), 47);
            assert(others =~= seq![rest]);
            assert(config::timezone_part_ok(others[0]));
        }
    }
    if zone_part(part) && config::timezone_ok(rest) {
        assert forall|i: int| 0 <= i < parts.len() implies config::timezone_part_ok(
            #[trigger] parts[i],
        ) by {
            if i > 0 {
                assert(config::timezone_part_ok(others[i - 1]));
            }
        }
    }
}

// ---------------------------------------------------------------------------
// URLs

proof fn lemma_char(c: char)
    ensures
        c as u32 == c as int,
        c as u32 <= 127 <==> '\0' <= c <= '\u{7f}',
{
}

/// The first character of a text whose first byte is ASCII.
pub proof fn lemma_ascii_first(s: Seq<char>)
    requires
        s.len() > 0,
    ensures
        encode_utf8(s).len() > 0,
        encode_utf8(s)[0] < 128 <==> (s[0] as u32) < 128,
        encode_utf8(s)[0] < 128 ==> s[0] as u32 == encode_utf8(s)[0] && encode_utf8(s.skip(1))
            == encode_utf8(s).skip(1),
{
    encode_utf8_first_scalar(s);
    let b = encode_utf8(s);
    let c = s[0] as u32;
    lemma_char(s[0]);
    assert(s.drop_first() =~= s.skip(1));
    if c < 128 {
        let one = seq![s[0]];
        assert forall|i: int| 0 <= i < one.len() implies '\0' <= #[trigger] one[i] <= '\u{7f}' by {
            assert(one[i] == s[0]);
        }
        is_ascii_chars_encode_utf8(one);
        assert(encode_utf8(one)[0] == one[0] as u8);
        notations::lemma_encode_add(one, s.skip(1));
        assert(one + s.skip(1) =~= s);
        assert(b.skip(1) =~= encode_utf8(s.skip(1)));
    } else {
        let first = b[0];
        if first < 128 {
            assert(is_leading_byte_width_1(first)) by (bit_vector)
                requires
                    first < 128,
            ;
            assert(codepoint_width_1(first) < 128) by (bit_vector)
                requires
                    first < 128,
            ;
        }
    }
}

proof fn lemma_ascii_prefix(s: Seq<char>, tag: Seq<char>)
    requires
        is_ascii_chars(tag),
    ensures
        text::has_prefix(encode_utf8(s), encode_utf8(tag)) <==> tag.len() <= s.len() && s.take(
            tag.len() as int,
        ) == tag,
        tag.len() <= s.len() && s.take(tag.len() as int) == tag ==> encode_utf8(s).skip(
            tag.len() as int,
        ) == encode_utf8(s.skip(tag.len() as int)),
    decreases tag.len(),
{
    let b = encode_utf8(s);
    let t = encode_utf8(tag);
    is_ascii_chars_encode_utf8(tag);
    if tag.len() == 0 {
        assert(b.take(0) =~= t);
        assert(s.take(0) =~= tag);
        assert(b.skip(0) =~= b);
        assert(s.skip(0) =~= s);
    } else if s.len() == 0 {
    } else {
        let rest = tag.skip(1);
        assert forall|i: int| 0 <= i < rest.len() implies '\0' <= #[trigger] rest[i] <= '\u{7f}' by {
            assert('\0' <= tag[i + 1] <= '\u{7f}');
        }
        assert('\0' <= tag[0] <= '\u{7f}');
        lemma_ascii_first(s);
        lemma_ascii_first(tag);
        lemma_ascii_prefix(s.skip(1), rest);
        let n = tag.len() as int;
        if text::has_prefix(b, t) {
            assert(b.take(n)[0] == t[0]);
            lemma_char(s[0]);
            lemma_char(tag[0]);
            assert(s[0] as u32 == tag[0] as u32);
            assert(b.skip(1).take(n - 1) =~= t.skip(1));
            assert(s.take(n) =~= tag) by {
                assert forall|i: int| 0 <= i < n implies s[i] == tag[i] by {
                    if i > 0 {
                        assert(s.skip(1).take(n - 1)[i - 1] == rest[i - 1]);
                    }
                }
            }
        }
        if n <= s.len() && s.take(n) == tag {
            assert(s.take(n)[0] == tag[0]);
            assert(s.skip(1).take(n - 1) =~= rest);
            assert(b.take(n) =~= t) by {
                assert forall|i: int| 0 <= i < n implies b[i] == t[i] by {
                    if i > 0 {
                        assert(b.skip(1).take(n - 1)[i - 1] == t.skip(1)[i - 1]);
                    }
                }
            }
            assert(b.skip(n) =~= b.skip(1).skip(n - 1));
            assert(s.skip(n) =~= s.skip(1).skip(n - 1));
        }
    }
}

/// Whether `s` has no white space.
pub open spec fn unspaced(s: Seq<char>) -> bool {
    forall|i: int| 0 <= i < s.len() ==> !text::whitespace(#[trigger] s[i])
}

/// Whether a URL is `http://` or `https://` and what follows begins with a host, with no
/// white space anywhere.
pub open spec fn web_address(url: Seq<char>) -> bool {
    &&& unspaced(url)
    &&& ({
        ||| url.len() > 7 && url.take(7) == "http://"@ && url[7] != '/'
        ||| url.len() > 8 && url.take(8) == "https://"@ && url[8] != '/'
    })
}

proof fn lemma_web_address(url: Seq<char>)
    ensures
        config::scheme_ok(encode_utf8(url)) && config::url_ok(url) <==> web_address(url),
        config::scheme_ok(encode_utf8(url)) <==> url.len() >= 7 && url.take(7) == "http://"@
            || url.len() >= 8 && url.take(8) == "https://"@,
{
    reveal_strlit("http://");
    reveal_strlit("https://");
    let short = "http://"@;
    let long = "https://"@;
    lemma_ascii_prefix(url, short);
    lemma_ascii_prefix(url, long);
    is_ascii_chars_encode_utf8(short);
    is_ascii_chars_encode_utf8(long);
    if url.len() >= 8 && url.take(7) == short {
        assert(url.take(7)[4] == ':');
        assert(url.take(8) != long) by {
            assert(url.take(8)[4] == ':' && long[4] == 's');
        }
    }
    if url.len() > 7 && url.take(7) == short {
        lemma_ascii_first(url.skip(7));
    }
    if url.len() > 8 && url.take(8) == long {
        lemma_ascii_first(url.skip(8));
    }
    if url.len() == 7 && url.take(7) == short {
        assert(url.skip(7) =~= Seq::empty());
    }
    if url.len() == 8 && url.take(8) == long {
        assert(url.skip(8) =~= Seq::empty());
    }
    let spaced = exists|i: int| 0 <= i < url.len() && text::whitespace(#[trigger] url[i]);
    assert(unspaced(url) == !spaced);
    let rest = config::behind_scheme(encode_utf8(url));
    if url.len() >= 8 && url.take(8) == long {
        assert(rest == encode_utf8(url.skip(8)));
        if url.len() >= 7 {
            assert(url.take(8)[4] == 's');
            assert(url[4] == 's');
            assert(url.take(7) != short) by {
                assert(url.take(7)[4] == 's' && short[4] == ':');
            }
        }
        if url.len() > 8 {
            assert(rest[0] == 47 <==> url[8] == '/') by {
                assert(url.skip(8)[0] == url[8]);
                lemma_char(url[8]);
            }
        }
    } else if url.len() >= 7 && url.take(7) == short {
        assert(rest == encode_utf8(url.skip(7)));
        if url.len() > 7 {
            assert(rest[0] == 47 <==> url[7] == '/') by {
                assert(url.skip(7)[0] == url[7]);
                lemma_char(url[7]);
            }
        }
    }
}

// ---------------------------------------------------------------------------
// Configurations

/// Whether an address can be that of one host: not `0.0.0.0`, and below the group and
/// reserved addresses.
pub open spec fn host_address(ip: Ipv4Addr) -> bool {
    ip.a < 224 && ip != (Ipv4Addr { a: 0, b: 0, c: 0, d: 0 })
}

/// Whether a file has a name of 1 to 255 bytes without control characters, or none.
pub open spec fn usable_file(file: Option<String>) -> bool {
    file matches Some(name) ==> 1 <= encode_utf8(name@).len() <= 255 && forall|i: int|
        0 <= i < name@.len() ==> !text::control(#[trigger] name@[i])
}

/// Whether an architecture has a name and usable files.
pub open spec fn usable_architecture(a: Architecture) -> bool {
    &&& a.name@.len() > 0
    &&& usable_file(a.files.bios_file)
    &&& usable_file(a.files.uefi_file)
    &&& usable_file(a.files.ipxe_file)
}

/// Whether everything in a configuration is as it should be.
pub open spec fn sound(config: Config) -> bool {
    let listen = config.dhcp.listen_ip;
    let source = config.clients_source;
    let options = config.client_options;
    let list = config.boot.architectures@;
    &&& listen == (Ipv4Addr { a: 0, b: 0, c: 0, d: 0 }) || host_address(listen)
    &&& config.dhcp.server_identifier matches Some(ip) ==> host_address(ip)
    &&& config.dhcp.lease_seconds > 0
    &&& config.http.listen.port > 0
    &&& source.poll_interval_seconds > 0
    &&& source.timeout_seconds > 0
    &&& web_address(source.url@)
    &&& source.state_file@.len() > 0
    &&& config::timezone_ok(encode_utf8(options.timezone@))
    &&& forall|i: int| 0 <= i < options.dns@.len() ==> host_address(#[trigger] options.dns@[i])
    &&& forall|i: int| 0 <= i < options.ntp@.len() ==> host_address(#[trigger] options.ntp@[i])
    &&& options.classless_routes@.len() > 0
    &&& forall|i: int|
        0 <= i < options.classless_routes@.len() ==> config::route(
            encode_utf8((#[trigger] options.classless_routes@[i])@),
        ) is Ok
    &&& host_address(config.boot.tftp_server)
    &&& forall|i: int| 0 <= i < list.len() ==> usable_architecture(#[trigger] list[i])
}

proof fn lemma_hosts(ips: Seq<Ipv4Addr>)
    ensures
        config::first_not_unicast(ips) is None <==> forall|i: int|
            0 <= i < ips.len() ==> host_address(#[trigger] ips[i]),
        config::first_not_unicast(ips) matches Some(ip) ==> !host_address(ip) && ips.contains(ip),
    decreases ips.len(),
{
    if ips.len() > 0 {
        let rest = ips.skip(1);
        lemma_hosts(rest);
        assert(ips[0] == ips.first());
        if forall|i: int| 0 <= i < rest.len() ==> host_address(#[trigger] rest[i]) {
            assert forall|i: int| 0 < i < ips.len() implies host_address(#[trigger] ips[i]) by {
                assert(host_address(rest[i - 1]));
            }
        }
        if forall|i: int| 0 <= i < ips.len() ==> host_address(#[trigger] ips[i]) {
            assert forall|i: int| 0 <= i < rest.len() implies host_address(#[trigger] rest[i]) by {
                assert(host_address(ips[i + 1]));
            }
        }
        if config::first_not_unicast(rest) is Some {
            let ip = config::first_not_unicast(rest)->0;
            let k = choose|k: int| 0 <= k < rest.len() && rest[k] == ip;
            assert(ips[k + 1] == ip);
        }
        assert(ips.contains(ips[0]));
    }
}

proof fn lemma_routes_ok(routes: Seq<String>)
    ensures
        config::route_fault(routes) is None <==> forall|i: int|
            0 <= i < routes.len() ==> config::route(encode_utf8((#[trigger] routes[i])@)) is Ok,
        config::route_fault(routes) matches Some((i, error)) ==> 0 <= i < routes.len()
            && config::route(encode_utf8(routes[i as int]@)) == Err::<
            (Ipv4Addr, u8),
            config::RouteError,
        >(error),
    decreases routes.len(),
{
    if routes.len() > 0 {
        let front = routes.drop_last();
        lemma_routes_ok(front);
        if config::route_fault(front) is None {
            assert forall|i: int| 0 <= i < front.len() implies config::route(
                encode_utf8((#[trigger] routes[i])@),
            ) is Ok by {
                assert(config::route(encode_utf8(front[i]@)) is Ok);
            }
        } else {
            let (k, error) = config::route_fault(front)->0;
            assert(front[k as int] == routes[k as int]);
        }
        assert(routes.last() == routes[routes.len() - 1]);
    }
}

proof fn lemma_file(file: Option<String>)
    ensures
        config::optional_file_ok(file) == usable_file(file),
{
}

proof fn lemma_architectures_ok(list: Seq<Architecture>)
    ensures
        config::architecture_fault(list) is None <==> forall|i: int|
            0 <= i < list.len() ==> usable_architecture(#[trigger] list[i]),
    decreases list.len(),
{
    if list.len() > 0 {
        let front = list.drop_last();
        lemma_architectures_ok(front);
        let last = list.last();
        lemma_file(last.files.bios_file);
        lemma_file(last.files.uefi_file);
        lemma_file(last.files.ipxe_file);
        assert(last == list[list.len() - 1]);
        if config::architecture_fault(front) is None {
            assert forall|i: int| 0 <= i < front.len() implies usable_architecture(
                #[trigger] list[i],
            ) by {
                assert(usable_architecture(front[i]));
            }
        } else if forall|i: int| 0 <= i < list.len() ==> usable_architecture(#[trigger] list[i]) {
            assert forall|i: int| 0 <= i < front.len() implies usable_architecture(
                #[trigger] front[i],
            ) by {
                assert(usable_architecture(list[i]));
            }
        }
    }
}

/// A configuration is valid exactly if everything in it is as it should be and its log
/// level is accepted.
pub proof fn law_valid_configurations(config: Config, filter_ok: bool)
    ensures
        config::config_fault(config, filter_ok) is None <==> sound(config) && filter_ok,
{
    let options = config.client_options;
    let both = options.dns@ + options.ntp@;
    lemma_web_address(config.clients_source.url@);
    lemma_hosts(both);
    lemma_routes_ok(options.classless_routes@);
    lemma_architectures_ok(config.boot.architectures@);
    if config::first_not_unicast(both) is None {
        assert forall|i: int| 0 <= i < options.dns@.len() implies host_address(
            #[trigger] options.dns@[i],
        ) by {
            assert(host_address(both[i]));
        }
        assert forall|i: int| 0 <= i < options.ntp@.len() implies host_address(
            #[trigger] options.ntp@[i],
        ) by {
            assert(host_address(both[options.dns@.len() + i]));
        }
    }
    if sound(config) {
        assert forall|i: int| 0 <= i < both.len() implies host_address(#[trigger] both[i]) by {
            if i < options.dns@.len() {
                assert(host_address(options.dns@[i]));
            } else {
                assert(host_address(options.ntp@[i - options.dns@.len()]));
            }
        }
    }
}

/// A configuration is refused for what is wrong with it.
pub proof fn law_refused_configurations(config: Config, filter_ok: bool)
    ensures
        match config::config_fault(config, filter_ok) {
            None => true,
            Some(ConfigError::ListenIp) => config.dhcp.listen_ip != (Ipv4Addr {
                a: 0,
                b: 0,
                c: 0,
                d: 0,
            }) && !host_address(config.dhcp.listen_ip),
            Some(ConfigError::ServerIdentifier) => config.dhcp.server_identifier is Some
                && !host_address(config.dhcp.server_identifier->0),
            Some(ConfigError::LeaseSeconds) => config.dhcp.lease_seconds == 0,
            Some(ConfigError::HttpPort) => config.http.listen.port == 0,
            Some(ConfigError::LogLevel) => !filter_ok,
            Some(ConfigError::PollInterval) => config.clients_source.poll_interval_seconds == 0,
            Some(ConfigError::Timeout) => config.clients_source.timeout_seconds == 0,
            Some(ConfigError::UrlScheme) => {
                let url = config.clients_source.url@;
                &&& !(url.len() >= 7 && url.take(7) == "http://"@)
                &&& !(url.len() >= 8 && url.take(8) == "https://"@)
            },
            Some(ConfigError::Url) => !web_address(config.clients_source.url@),
            Some(ConfigError::StateFile) => config.clients_source.state_file@.len() == 0,
            Some(ConfigError::Timezone) => !config::timezone_ok(
                encode_utf8(config.client_options.timezone@),
            ),
            Some(ConfigError::NameOrTimeServer(ip)) => !host_address(ip) && (
            config.client_options.dns@ + config.client_options.ntp@).contains(ip),
            Some(ConfigError::NoRoutes) => config.client_options.classless_routes@.len() == 0,
            Some(ConfigError::Route(_, _)) => config::route_fault(
                config.client_options.classless_routes@,
            ) is Some,
            Some(ConfigError::TftpServer) => !host_address(config.boot.tftp_server),
            Some(ConfigError::EmptyArchitecture) => exists|i: int|
                0 <= i < config.boot.architectures@.len() && (
                #[trigger] config.boot.architectures@[i]).name@.len() == 0,
            Some(ConfigError::BootFile(_)) => exists|i: int|
                0 <= i < config.boot.architectures@.len() && !usable_architecture(
                    #[trigger] config.boot.architectures@[i],
                ),
        },
{
    let options = config.client_options;
    lemma_web_address(config.clients_source.url@);
    lemma_hosts(options.dns@ + options.ntp@);
    lemma_routes_ok(options.classless_routes@);
    lemma_architectures_ok(config.boot.architectures@);
    lemma_empty_architecture(config.boot.architectures@);
}

proof fn lemma_empty_architecture(list: Seq<Architecture>)
    ensures
        match config::architecture_fault(list) {
            None => true,
            Some(ConfigError::EmptyArchitecture) => exists|i: int|
                0 <= i < list.len() && (#[trigger] list[i]).name@.len() == 0,
            Some(ConfigError::BootFile(_)) => true,
            Some(_) => false,
        },
    decreases list.len(),
{
    if list.len() > 0 {
        let front = list.drop_last();
        lemma_empty_architecture(front);
        if config::architecture_fault(front) == Some(ConfigError::EmptyArchitecture) {
            let i = choose|i: int| 0 <= i < front.len() && (#[trigger] front[i]).name@.len() == 0;
            assert(list[i].name@.len() == 0);
        }
        assert(list.last() == list[list.len() - 1]);
    }
}

// ---------------------------------------------------------------------------
// Log levels

proof fn lemma_next_of(s: Seq<char>, i: int, a: char, b: char)
    requires
        0 <= i <= s.len(),
    ensures
        i <= config::next_of(s, i, a, b) <= s.len(),
        forall|j: int| i <= j < config::next_of(s, i, a, b) ==> #[trigger] s[j] != a && s[j] != b,
        config::next_of(s, i, a, b) < s.len() ==> s[config::next_of(s, i, a, b)] == a
            || s[config::next_of(s, i, a, b)] == b,
    decreases s.len() - i,
{
    if i < s.len() && s[i] != a && s[i] != b {
        lemma_next_of(s, i + 1, a, b);
    }
}

proof fn lemma_cuts(d: Seq<char>)
    ensures
        forall|n: int| 0 <= n < config::cuts(d).len() ==> 0 <= #[trigger] config::cuts(d)[n]
            <= d.len(),
{
    lemma_next_of(d, 0, '=', '[');
    let i = config::next_of(d, 0, '=', '[');
    if i < d.len() {
        lemma_next_of(d, i + 1, ']', '{');
        let j = config::next_of(d, i + 1, ']', '{');
        if j < d.len() {
            lemma_next_of(d, j + 1, '}', '}');
        }
    }
}

proof fn lemma_past_space(s: Seq<char>, i: int)
    requires
        0 <= i <= s.len(),
    ensures
        i <= config::past_space(s, i) <= s.len(),
    decreases s.len() - i,
{
    if i < s.len() {
        lemma_past_space(s, i + 1);
    }
}

/// Whether `s` is ASCII.
pub open spec fn plain(s: Seq<char>) -> bool {
    forall|i: int| 0 <= i < s.len() ==> (#[trigger] s[i] as u32) < 128
}

proof fn lemma_plain_bytes(s: Seq<char>, n: int)
    requires
        plain(s),
        0 <= n <= s.len(),
    ensures
        config::bytes_before(s, n) == n,
    decreases n,
{
    if n > 0 {
        lemma_plain_bytes(s, n - 1);
        assert((s[n - 1] as u32) < 128);
    }
}

proof fn lemma_directive(d: Seq<char>)
    requires
        plain(d) || d.len() == 0 || !text::whitespace(d[0]),
    ensures
        config::directive_readable(d),
{
    lemma_past_space(d, 0);
    let p = config::past_space(d, 0);
    let t = d.skip(p);
    lemma_cuts(t);
    assert forall|n: int| 0 <= n < config::cuts(t).len() implies config::between_chars(
        d,
        config::bytes_before(t, #[trigger] config::cuts(t)[n]),
    ) by {
        let c = config::cuts(t)[n];
        if plain(d) {
            assert forall|i: int| 0 <= i < t.len() implies (#[trigger] t[i] as u32) < 128 by {
                assert((d[i + p] as u32) < 128);
            }
            lemma_plain_bytes(t, c);
            lemma_plain_bytes(d, c);
        } else {
            assert(t =~= d);
        }
        assert(config::bytes_before(d, c) == config::bytes_before(t, c));
    }
}

/// Whether no directive of a level, at its front or behind a comma, begins with white
/// space.
pub open spec fn unindented(level: Seq<char>) -> bool {
    forall|i: int|
        0 <= i < level.len() && text::whitespace(#[trigger] level[i]) ==> i > 0 && level[i - 1]
            != ','
}

proof fn lemma_readable_from(level: Seq<char>, i: int)
    requires
        0 <= i <= level.len(),
        i == 0 || level[i - 1] == ',',
        plain(level) || unindented(level),
    ensures
        config::readable_from(level, i),
    decreases level.len() - i,
{
    lemma_next_of(level, i, ',', ',');
    let n = config::next_of(level, i, ',', ',');
    let d = level.subrange(i, n);
    if plain(level) {
        assert forall|k: int| 0 <= k < d.len() implies (#[trigger] d[k] as u32) < 128 by {
            assert((level[i + k] as u32) < 128);
        }
    } else if d.len() > 0 {
        assert(d[0] == level[i]);
    }
    lemma_directive(d);
    if n < level.len() {
        lemma_readable_from(level, n + 1);
    }
}

/// Every level that is ASCII, or in which no directive begins with white space, can be
/// read, so that the filter parser alone decides on it.
pub proof fn law_ordinary_levels_are_readable(level: Seq<char>)
    requires
        plain(level) || unindented(level),
    ensures
        config::filter_readable(level),
{
    lemma_readable_from(level, 0);
}

} // verus!
