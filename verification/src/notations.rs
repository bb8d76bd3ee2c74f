//! Numbers, addresses and names as text: what is read is what was written.
use crate::clients;
use crate::clients::RowError;
use crate::config;
use crate::config::RouteError;
use crate::net;
use crate::net::Ipv4Addr;
use crate::text;
use vstd::arithmetic::power2::*;
use vstd::prelude::*;
use vstd::string::*;
use vstd::utf8::*;

verus! {

// ---------------------------------------------------------------------------
// Decimal numbers

/// The number that decimal digits denote.
pub open spec fn decimal_value(s: Seq<char>) -> int
    decreases s.len(),
{
    if s.len() == 0 {
        0
    } else {
        decimal_value(s.drop_last()) * 10 + (s.last() as int - '0' as int)
    }
}

/// Whether `s` is made of the digits from 0 to 9.
pub open spec fn decimal_digits(s: Seq<char>) -> bool {
    forall|i: int| 0 <= i < s.len() ==> '0' <= #[trigger] s[i] <= '9'
}

/// A number is written in decimal digits that denote it, without leading zeros.
pub proof fn law_decimal_notation(n: nat)
    ensures
        text::decimal(n).len() >= 1,
        decimal_digits(text::decimal(n)),
        decimal_value(text::decimal(n)) == n,
        n > 0 ==> text::decimal(n)[0] != '0',
        n == 0 ==> text::decimal(n) == seq!['0'],
    decreases n,
{
    if n < 10 {
        let s = text::decimal(n);
        assert(decimal_value(s.drop_last()) == 0);
        if n == 0 {
            assert(s =~= seq!['0']);
        }
    } else {
        law_decimal_notation(n / 10);
        let s = text::decimal(n);
        assert(s.drop_last() =~= text::decimal(n / 10));
    }
}

/// The bytes of decimal digits.
proof fn lemma_digit_bytes(s: Seq<char>)
    requires
        decimal_digits(s),
    ensures
        encode_utf8(s).len() == s.len(),
        forall|i: int| 0 <= i < s.len() ==> #[trigger] encode_utf8(s)[i] == s[i] as u8,
{
    assert forall|i: int| 0 <= i < s.len() implies '\0' <= #[trigger] s[i] <= '\u{7f}' by {
        assert('0' <= s[i] <= '9');
    }
    is_ascii_chars_encode_utf8(s);
}

proof fn lemma_value_of_bytes(s: Seq<char>, b: Seq<u8>)
    requires
        decimal_digits(s),
        b.len() == s.len(),
        forall|i: int| 0 <= i < s.len() ==> #[trigger] b[i] == s[i] as u8,
    ensures
        text::all_digits(b, 10),
        text::digits_value(b, 10) == decimal_value(s),
    decreases s.len(),
{
    if s.len() > 0 {
        let f = s.drop_last();
        let g = b.drop_last();
        assert(decimal_digits(f)) by {
            assert forall|i: int| 0 <= i < f.len() implies '0' <= #[trigger] f[i] <= '9' by {
                assert('0' <= s[i] <= '9');
            }
        }
        lemma_value_of_bytes(f, g);
        assert('0' <= s.last() <= '9') by {
            assert(s.last() == s[s.len() - 1]);
        }
        assert(b.last() == s.last() as u8) by {
            assert(b[b.len() - 1] == s[s.len() - 1] as u8);
        }
        assert forall|i: int| 0 <= i < b.len() implies text::digit_value(#[trigger] b[i], 10) < 10 by {
            if i < b.len() - 1 {
                assert(g[i] == b[i]);
            }
        }
    }
}

/// A number is read back from its decimal notation, with or without a plus sign, exactly
/// if it is not over the limit.
pub proof fn law_numbers_are_read_back(n: nat, max: nat)
    ensures
        n <= max ==> text::number(encode_utf8(text::decimal(n)), 10, max) == Some(n),
        n > max ==> text::number(encode_utf8(text::decimal(n)), 10, max) is None,
        n <= max ==> text::number(seq![43u8] + encode_utf8(text::decimal(n)), 10, max) == Some(n),
{
    let s = text::decimal(n);
    let b = encode_utf8(s);
    law_decimal_notation(n);
    lemma_digit_bytes(s);
    lemma_value_of_bytes(s, b);
    assert('0' <= s[0] <= '9');
    assert(text::unsigned_digits(b) == b);
    assert((seq![43u8] + b).skip(1) =~= b);
}

/// A text that is read as a number is made of digits behind at most one plus sign.
pub proof fn law_only_digits_are_numbers(s: Seq<u8>, max: nat)
    ensures
        text::number(s, 10, max) is Some ==> ({
            let from: int = if s.len() > 1 && s[0] == 43 {
                1
            } else {
                0
            };
            s.len() > from && text::number(s, 10, max)->0 <= max && forall|i: int|
                from <= i < s.len() ==> 48 <= #[trigger] s[i] <= 57
        }),
{
    if text::number(s, 10, max) is Some {
        let d = text::unsigned_digits(s);
        let from: int = if s.len() > 1 && s[0] == 43 {
            1
        } else {
            0
        };
        assert forall|i: int| from <= i < s.len() implies 48 <= #[trigger] s[i] <= 57 by {
            assert(text::digit_value(d[i - from], 10) < 10);
        }
    }
}

// ---------------------------------------------------------------------------
// Pieces

/// Whether `b` does not occur in `s`.
pub open spec fn lacks(s: Seq<u8>, b: u8) -> bool {
    forall|i: int| 0 <= i < s.len() ==> #[trigger] s[i] != b
}

/// A text is split at its first separator, and what follows is split again; without a
/// separator it is one piece.
pub proof fn law_split(first: Seq<u8>, rest: Seq<u8>, sep: u8)
    requires
        lacks(first, sep),
    ensures
        text::split(first, sep) == seq![first],
        text::split(first + seq![sep] + rest, sep) == seq![first] + text::split(rest, sep),
{
    text::lemma_find_unique(first, sep, first.len() as int);
    let s = first + seq![sep] + rest;
    text::lemma_find_unique(s, sep, first.len() as int);
    assert(s.take(first.len() as int) =~= first);
    assert(s.skip(first.len() as int + 1) =~= rest);
}

/// What `split` cuts off in front.
proof fn lemma_split_front(s: Seq<u8>, sep: u8)
    ensures
        text::split(s, sep).len() >= 1,
        lacks(text::split(s, sep)[0], sep),
        text::split(s, sep).len() == 1 ==> text::split(s, sep)[0] == s,
        text::split(s, sep).len() > 1 ==> exists|rest: Seq<u8>|
            s == text::split(s, sep)[0] + seq![sep] + rest && #[trigger] text::split(rest, sep)
                == text::split(s, sep).skip(1),
{
    text::lemma_find(s, sep);
    let n = text::find(s, sep);
    if n < s.len() {
        let rest = s.skip(n + 1);
        let parts = text::split(s, sep);
        assert(parts == seq![s.take(n)] + text::split(rest, sep));
        assert(parts.skip(1) =~= text::split(rest, sep));
        assert(s =~= parts[0] + seq![sep] + rest);
        if parts.len() == 1 {
            lemma_split_nonempty(rest, sep);
        }
    }
}

proof fn lemma_split_nonempty(s: Seq<u8>, sep: u8)
    ensures
        text::split(s, sep).len() >= 1,
{
}

// ---------------------------------------------------------------------------
// Addresses

/// Dotted decimal notation.
pub open spec fn dotted(ip: Ipv4Addr) -> Seq<char> {
    text::decimal(ip.a as nat) + "."@ + text::decimal(ip.b as nat) + "."@ + text::decimal(
        ip.c as nat,
    ) + "."@ + text::decimal(ip.d as nat)
}

/// The bytes of dotted decimal notation.
pub open spec fn dotted_bytes(ip: Ipv4Addr) -> Seq<u8> {
    octet_bytes(ip.a) + (seq![46u8] + (octet_bytes(ip.b) + (seq![46u8] + (octet_bytes(ip.c) + (seq![
        46u8,
    ] + octet_bytes(ip.d))))))
}

/// The bytes of a byte in decimal notation.
pub open spec fn octet_bytes(n: u8) -> Seq<u8> {
    encode_utf8(text::decimal(n as nat))
}

proof fn lemma_octet(n: u8)
    ensures
        net::octet(octet_bytes(n)) == Some(n),
        lacks(octet_bytes(n), 46),
        1 <= octet_bytes(n).len() <= 3,
{
    let s = text::decimal(n as nat);
    let b = encode_utf8(s);
    law_decimal_notation(n as nat);
    lemma_digit_bytes(s);
    lemma_value_of_bytes(s, b);
    reveal_with_fuel(text::decimal, 4);
    assert(s.len() <= 3);
    assert forall|i: int| 0 <= i < b.len() implies #[trigger] b[i] != 46 by {
        assert('0' <= s[i] <= '9');
    }
    if s.len() > 1 {
        if n == 0 {
            assert(s =~= seq!['0']);
        }
        assert(b[0] == s[0] as u8);
        assert(s[0] != '0');
        assert('0' <= s[0] <= '9');
    }
}

/// Two texts, one behind the other, in UTF-8.
pub proof fn lemma_encode_add(a: Seq<char>, b: Seq<char>)
    ensures
        encode_utf8(a + b) == encode_utf8(a) + encode_utf8(b),
    decreases a.len(),
{
    if a.len() == 0 {
        assert(a + b =~= b);
        assert(encode_utf8(a) + encode_utf8(b) =~= encode_utf8(b));
    } else {
        assert((a + b).drop_first() =~= a.drop_first() + b);
        lemma_encode_add(a.drop_first(), b);
        assert(encode_utf8(a + b) =~= encode_utf8(a) + encode_utf8(b));
    }
}

proof fn lemma_dot()
    ensures
        encode_utf8("."@) == seq![46u8],
        encode_utf8("/"@) == seq![47u8],
{
    reveal_strlit(".");
    reveal_strlit("/");
    is_ascii_chars_encode_utf8("."@);
    is_ascii_chars_encode_utf8("/"@);
    assert(encode_utf8("."@) =~= seq![46u8]);
    assert(encode_utf8("/"@) =~= seq![47u8]);
}

proof fn lemma_dotted_bytes(ip: Ipv4Addr)
    ensures
        encode_utf8(dotted(ip)) == dotted_bytes(ip),
{
    let (a, b, c, d) = (
        text::decimal(ip.a as nat),
        text::decimal(ip.b as nat),
        text::decimal(ip.c as nat),
        text::decimal(ip.d as nat),
    );
    lemma_dot();
    lemma_encode_add(a + "."@ + b + "."@ + c + "."@, d);
    lemma_encode_add(a + "."@ + b + "."@ + c, "."@);
    lemma_encode_add(a + "."@ + b + "."@, c);
    lemma_encode_add(a + "."@ + b, "."@);
    lemma_encode_add(a + "."@, b);
    lemma_encode_add(a, "."@);
    assert(encode_utf8(dotted(ip)) =~= dotted_bytes(ip));
}

/// Four pieces with a separator between them.
pub open spec fn four(a: Seq<u8>, b: Seq<u8>, c: Seq<u8>, d: Seq<u8>, sep: u8) -> Seq<u8> {
    a + (seq![sep] + (b + (seq![sep] + (c + (seq![sep] + d)))))
}

proof fn lemma_split_next(first: Seq<u8>, rest: Seq<u8>, sep: u8)
    requires
        lacks(first, sep),
    ensures
        text::split(first + (seq![sep] + rest), sep) == seq![first] + text::split(rest, sep),
{
    law_split(first, rest, sep);
    assert(first + seq![sep] + rest =~= first + (seq![sep] + rest));
}

proof fn lemma_split_four(a: Seq<u8>, b: Seq<u8>, c: Seq<u8>, d: Seq<u8>, sep: u8)
    requires
        lacks(a, sep),
        lacks(b, sep),
        lacks(c, sep),
        lacks(d, sep),
    ensures
        text::split(four(a, b, c, d, sep), sep) == seq![a, b, c, d],
{
    law_split(d, Seq::empty(), sep);
    lemma_split_next(c, d, sep);
    lemma_split_next(b, c + (seq![sep] + d), sep);
    lemma_split_next(a, b + (seq![sep] + (c + (seq![sep] + d))), sep);
    assert(seq![a] + (seq![b] + (seq![c] + seq![d])) =~= seq![a, b, c, d]);
}

proof fn lemma_ipv4_bytes(ip: Ipv4Addr)
    ensures
        net::ipv4(dotted_bytes(ip)) == Some(ip),
{
    let (a, b, c, d) = (octet_bytes(ip.a), octet_bytes(ip.b), octet_bytes(ip.c), octet_bytes(ip.d));
    lemma_octet(ip.a);
    lemma_octet(ip.b);
    lemma_octet(ip.c);
    lemma_octet(ip.d);
    lemma_split_four(a, b, c, d, 46);
    assert(dotted_bytes(ip) == four(a, b, c, d, 46));
}

proof fn lemma_lacks_add(a: Seq<u8>, b: Seq<u8>, x: u8)
    requires
        lacks(a, x),
        lacks(b, x),
    ensures
        lacks(a + b, x),
{
}

proof fn lemma_dotted_lacks_slash(ip: Ipv4Addr)
    ensures
        lacks(dotted_bytes(ip), 47),
{
    let (a, b, c, d) = (octet_bytes(ip.a), octet_bytes(ip.b), octet_bytes(ip.c), octet_bytes(ip.d));
    lemma_octet_no_slash(ip.a);
    lemma_octet_no_slash(ip.b);
    lemma_octet_no_slash(ip.c);
    lemma_octet_no_slash(ip.d);
    let dot = seq![46u8];
    lemma_lacks_add(dot, d, 47);
    lemma_lacks_add(c, dot + d, 47);
    lemma_lacks_add(dot, c + (dot + d), 47);
    lemma_lacks_add(b, dot + (c + (dot + d)), 47);
    lemma_lacks_add(dot, b + (dot + (c + (dot + d))), 47);
    lemma_lacks_add(a, dot + (b + (dot + (c + (dot + d)))), 47);
}

proof fn lemma_octet_no_slash(n: u8)
    ensures
        lacks(octet_bytes(n), 47),
{
    let s = text::decimal(n as nat);
    law_decimal_notation(n as nat);
    lemma_digit_bytes(s);
    assert forall|i: int| 0 <= i < octet_bytes(n).len() implies #[trigger] octet_bytes(n)[i] != 47 by {
        assert('0' <= s[i] <= '9');
    }
}

/// Every address is written in dotted decimal notation and read back from it.
pub proof fn law_addresses_are_read_back(ip: Ipv4Addr)
    ensures
        ip.text() == dotted(ip),
        net::ipv4(encode_utf8(dotted(ip))) == Some(ip),
{
    lemma_dotted_bytes(ip);
    lemma_ipv4_bytes(ip);
}

proof fn lemma_octet_is_decimal(s: Seq<u8>)
    requires
        net::octet(s) is Some,
    ensures
        s == octet_bytes(net::octet(s)->0),
{
    let v = net::octet(s)->0;
    let t = text::decimal(v as nat);
    law_decimal_notation(v as nat);
    lemma_digit_bytes(t);
    reveal_with_fuel(text::decimal, 4);
    reveal_with_fuel(text::digits_value, 4);
    assert forall|i: int| 0 <= i < s.len() implies 48 <= #[trigger] s[i] <= 57 by {
        assert(text::digit_value(s[i], 10) < 10);
    }
    if s.len() == 1 {
        assert(v == s[0] - 48);
        assert(octet_bytes(v) =~= s);
    } else if s.len() == 2 {
        assert(v == (s[0] - 48) * 10 + (s[1] - 48));
        assert(s[0] > 48);
        assert(v / 10 == s[0] - 48 && v % 10 == s[1] - 48);
        assert(octet_bytes(v) =~= s);
    } else {
        assert(v == (s[0] - 48) * 100 + (s[1] - 48) * 10 + (s[2] - 48));
        assert(s[0] > 48);
        assert(v / 10 == (s[0] - 48) * 10 + (s[1] - 48) && v % 10 == s[2] - 48);
        assert(v / 10 / 10 == s[0] - 48 && v / 10 % 10 == s[1] - 48);
        assert(octet_bytes(v) =~= s);
    }
}

/// No other text is read as an address.
pub proof fn law_only_dotted_decimals_are_addresses(s: Seq<u8>)
    ensures
        net::ipv4(s) matches Some(ip) ==> s == encode_utf8(dotted(ip)),
{
    if net::ipv4(s) is Some {
        let ip = net::ipv4(s)->0;
        let parts = text::split(s, 46);
        lemma_split_front(s, 46);
        let r1 = choose|rest: Seq<u8>|
            s == text::split(s, 46)[0] + seq![46u8] + rest && #[trigger] text::split(rest, 46)
                == text::split(s, 46).skip(1);
        lemma_split_front(r1, 46);
        let r2 = choose|rest: Seq<u8>|
            r1 == text::split(r1, 46)[0] + seq![46u8] + rest && #[trigger] text::split(rest, 46)
                == text::split(r1, 46).skip(1);
        lemma_split_front(r2, 46);
        let r3 = choose|rest: Seq<u8>|
            r2 == text::split(r2, 46)[0] + seq![46u8] + rest && #[trigger] text::split(rest, 46)
                == text::split(r2, 46).skip(1);
        lemma_split_front(r3, 46);
        lemma_octet_is_decimal(parts[0]);
        lemma_octet_is_decimal(parts[1]);
        lemma_octet_is_decimal(parts[2]);
        lemma_octet_is_decimal(parts[3]);
        lemma_dotted_bytes(ip);
        assert(s =~= dotted_bytes(ip));
    }
}

// ---------------------------------------------------------------------------
// Routes

/// The number of an address.
pub open spec fn number_of(ip: Ipv4Addr) -> int {
    ip.a * 0x100_0000 + ip.b * 0x1_0000 + ip.c * 0x100 + ip.d
}

/// A route: an address, a slash and a prefix length.
pub open spec fn slashed(ip: Ipv4Addr, prefix: nat) -> Seq<char> {
    dotted(ip) + "/"@ + text::decimal(prefix)
}

proof fn lemma_slashed(ip: Ipv4Addr, prefix: nat)
    ensures
        ({
            let s = encode_utf8(slashed(ip, prefix));
            let halves = config::route_halves(s);
            &&& text::find(s, 47) < s.len()
            &&& halves.0 == encode_utf8(dotted(ip))
            &&& halves.1 == encode_utf8(text::decimal(prefix))
        }),
{
    let a = dotted(ip);
    let b = text::decimal(prefix);
    let s = encode_utf8(slashed(ip, prefix));
    let h = encode_utf8(a);
    lemma_dot();
    lemma_encode_add(a + "/"@, b);
    lemma_encode_add(a, "/"@);
    lemma_dotted_bytes(ip);
    lemma_dotted_lacks_slash(ip);
    assert(s =~= h + seq![47u8] + encode_utf8(b));
    text::lemma_find_unique(s, 47, h.len() as int);
    assert(s.take(h.len() as int) =~= h);
    assert(s.skip(h.len() as int + 1) =~= encode_utf8(b));
}

/// A route is read back from its text exactly if its prefix length is from 1 to 32 and its
/// address has no bits behind the prefix; so the default route is refused.
pub proof fn law_routes_are_read_back(ip: Ipv4Addr, prefix: nat)
    ensures
        ({
            let read = config::route(encode_utf8(slashed(ip, prefix)));
            let whole = number_of(ip) as nat % pow2((32 - prefix) as nat) == 0;
            &&& 1 <= prefix <= 32 && whole ==> read == Ok::<(Ipv4Addr, u8), RouteError>(
                (ip, prefix as u8),
            )
            &&& 1 <= prefix <= 32 && !whole ==> read == Err::<(Ipv4Addr, u8), RouteError>(
                RouteError::HostBits,
            )
            &&& prefix == 0 || 32 < prefix <= 255 ==> read == Err::<(Ipv4Addr, u8), RouteError>(
                RouteError::Range,
            )
            &&& prefix > 255 ==> read is Err
        }),
{
    lemma_slashed(ip, prefix);
    law_addresses_are_read_back(ip);
    law_numbers_are_read_back(prefix, 255);
    assert(number_of(ip) == ip.bits());
}

/// A text that is accepted as a route is an address, a slash and a number that is the
/// prefix length; the length is from 1 to 32, and the address has no bits behind it.
pub proof fn law_only_routes_are_accepted(s: Seq<u8>)
    ensures
        config::route(s) matches Ok((ip, prefix)) ==> ({
            let head = encode_utf8(dotted(ip));
            &&& s.len() > head.len()
            &&& s.take(head.len() as int) == head
            &&& s[head.len() as int] == 47
            &&& text::number(s.skip(head.len() as int + 1), 10, 255) == Some(prefix as nat)
            &&& 1 <= prefix <= 32
            &&& number_of(ip) as nat % pow2((32 - prefix) as nat) == 0
        }),
{
    if config::route(s) is Ok {
        let (ip, prefix) = config::route(s)->Ok_0;
        let n = text::find(s, 47);
        text::lemma_find(s, 47);
        law_only_dotted_decimals_are_addresses(s.take(n));
        assert(number_of(ip) == ip.bits());
        assert(encode_utf8(dotted(ip)).len() == n);
    }
}

/// What is accepted in the configuration as a route is sent as that route.
pub proof fn law_accepted_routes_are_sent(routes: Seq<String>, route: String, gateway: Ipv4Addr)
    requires
        crate::reply::routes_value(routes, gateway) is Ok,
        config::route(encode_utf8(route@)) is Ok,
    ensures
        ({
            let (ip, prefix) = config::route(encode_utf8(route@))->Ok_0;
            let n: int = if prefix <= 8 {
                1
            } else if prefix <= 16 {
                2
            } else if prefix <= 24 {
                3
            } else {
                4
            };
            let one = seq![prefix] + seq![ip.a, ip.b, ip.c, ip.d].take(n) + seq![
                gateway.a,
                gateway.b,
                gateway.c,
                gateway.d,
            ];
            crate::reply::routes_value(routes.push(route), gateway) == Ok::<Seq<u8>, RouteError>(
                crate::reply::routes_value(routes, gateway)->Ok_0 + one,
            )
        }),
        crate::reply::routes_value(Seq::empty(), gateway) == Ok::<Seq<u8>, RouteError>(
            Seq::empty(),
        ),
{
    let all = routes.push(route);
    assert(all.drop_last() =~= routes);
    let (ip, prefix) = config::route(encode_utf8(route@))->Ok_0;
    assert(ip.bytes() =~= seq![ip.a, ip.b, ip.c, ip.d]);
    assert(gateway.bytes() =~= seq![gateway.a, gateway.b, gateway.c, gateway.d]);
}

// ---------------------------------------------------------------------------
// Hardware addresses

/// Whether a byte is a hexadecimal digit, in upper or lower case.
pub open spec fn hex_digit(b: u8) -> bool {
    48 <= b <= 57 || 65 <= b <= 70 || 97 <= b <= 102
}

/// The value of a hexadecimal digit.
pub open spec fn hex_value(b: u8) -> int {
    if b <= 57 {
        b - 48
    } else if b <= 70 {
        b - 55
    } else {
        b - 87
    }
}

/// Whether `s` is six pairs of hexadecimal digits with colons between them.
pub open spec fn six_pairs(s: Seq<u8>) -> bool {
    &&& s.len() == 17
    &&& s[2] == 58 && s[5] == 58 && s[8] == 58 && s[11] == 58 && s[14] == 58
    &&& hex_digit(s[0]) && hex_digit(s[1]) && hex_digit(s[3]) && hex_digit(s[4]) && hex_digit(s[6])
        && hex_digit(s[7]) && hex_digit(s[9]) && hex_digit(s[10]) && hex_digit(s[12]) && hex_digit(
        s[13],
    ) && hex_digit(s[15]) && hex_digit(s[16])
}

/// The byte that the pair at `i` denotes.
pub open spec fn pair_value(s: Seq<u8>, i: int) -> int {
    hex_value(s[i]) * 16 + hex_value(s[i + 1])
}

/// The bytes that six pairs denote.
pub open spec fn pair_values(s: Seq<u8>) -> Seq<int> {
    seq![
        pair_value(s, 0),
        pair_value(s, 3),
        pair_value(s, 6),
        pair_value(s, 9),
        pair_value(s, 12),
        pair_value(s, 15),
    ]
}

pub proof fn lemma_pair(part: Seq<u8>)
    requires
        part.len() == 2,
    ensures
        text::all_digits(part, 16) == (hex_digit(part[0]) && hex_digit(part[1])),
        text::all_digits(part, 16) ==> text::digits_value(part, 16) == hex_value(part[0]) * 16
            + hex_value(part[1]),
        text::all_digits(part, 16) ==> text::digits_value(part, 16) <= 255 && lacks(part, 58),
{
    reveal_with_fuel(text::digits_value, 3);
    assert(text::digit_value(part[0], 16) < 16 <==> hex_digit(part[0]));
    assert(text::digit_value(part[1], 16) < 16 <==> hex_digit(part[1]));
}

pub proof fn lemma_six_parts(s: Seq<u8>)
    requires
        six_pairs(s),
    ensures
        clients::mac_parts(s) == seq![
            s.subrange(0, 2),
            s.subrange(3, 5),
            s.subrange(6, 8),
            s.subrange(9, 11),
            s.subrange(12, 14),
            s.subrange(15, 17),
        ],
{
    let p0 = s.subrange(0, 2);
    let p1 = s.subrange(3, 5);
    let p2 = s.subrange(6, 8);
    let p3 = s.subrange(9, 11);
    let p4 = s.subrange(12, 14);
    let p5 = s.subrange(15, 17);
    let r4 = s.skip(12);
    let r3 = s.skip(9);
    let r2 = s.skip(6);
    let r1 = s.skip(3);
    law_split(p5, Seq::empty(), 58);
    lemma_split_next(p4, p5, 58);
    assert(p4 + (seq![58u8] + p5) =~= r4);
    lemma_split_next(p3, r4, 58);
    assert(p3 + (seq![58u8] + r4) =~= r3);
    lemma_split_next(p2, r3, 58);
    assert(p2 + (seq![58u8] + r3) =~= r2);
    lemma_split_next(p1, r2, 58);
    assert(p1 + (seq![58u8] + r2) =~= r1);
    lemma_split_next(p0, r1, 58);
    assert(p0 + (seq![58u8] + r1) =~= s);
    assert(clients::mac_parts(s) =~= seq![p0, p1, p2, p3, p4, p5]);
}

/// The rest behind the first piece of a text that is split into more than one.
proof fn lemma_split_step(s: Seq<u8>, sep: u8) -> (rest: Seq<u8>)
    requires
        text::split(s, sep).len() > 1,
    ensures
        s == text::split(s, sep)[0] + seq![sep] + rest,
        text::split(rest, sep) == text::split(s, sep).skip(1),
{
    lemma_split_front(s, sep);
    choose|rest: Seq<u8>|
        s == text::split(s, sep)[0] + seq![sep] + rest && #[trigger] text::split(rest, sep)
            == text::split(s, sep).skip(1)
}

proof fn lemma_parts_are_pairs(s: Seq<u8>)
    requires
        clients::mac(s) is Ok,
    ensures
        six_pairs(s),
{
    let parts = clients::mac_parts(s);
    let r1 = lemma_split_step(s, 58);
    let r2 = lemma_split_step(r1, 58);
    let r3 = lemma_split_step(r2, 58);
    let r4 = lemma_split_step(r3, 58);
    let r5 = lemma_split_step(r4, 58);
    lemma_split_front(r5, 58);
    let c = seq![58u8];
    assert(text::split(r1, 58)[0] == parts[1]);
    assert(text::split(r2, 58)[0] == parts[2]);
    assert(text::split(r3, 58)[0] == parts[3]);
    assert(text::split(r4, 58)[0] == parts[4]);
    assert(r5 == parts[5]);
    assert(parts[0].len() == 2 && parts[1].len() == 2 && parts[2].len() == 2 && parts[3].len() == 2
        && parts[4].len() == 2 && parts[5].len() == 2);
    lemma_pair(parts[0]);
    lemma_pair(parts[1]);
    lemma_pair(parts[2]);
    lemma_pair(parts[3]);
    lemma_pair(parts[4]);
    lemma_pair(parts[5]);
    assert(text::all_digits(parts[0], 16) && text::all_digits(parts[1], 16) && text::all_digits(
        parts[2],
        16,
    ) && text::all_digits(parts[3], 16) && text::all_digits(parts[4], 16) && text::all_digits(
        parts[5],
        16,
    ));
    assert(r4 == parts[4] + c + r5);
    assert(r3 == parts[3] + c + r4);
    assert(r2 == parts[2] + c + r3);
    assert(r1 == parts[1] + c + r2);
    assert(s == parts[0] + c + r1);
    assert(s.len() == 17);
    assert(s[0] == parts[0][0] && s[1] == parts[0][1] && s[2] == 58);
    assert(s[3] == r1[0] && s[4] == r1[1] && s[5] == r1[2]);
    assert(s[6] == r1[3] && r1[3] == r2[0] && s[7] == r1[4] && r1[4] == r2[1] && s[8] == r1[5]
        && r1[5] == r2[2]);
    assert(s[9] == r1[6] && r1[6] == r2[3] && r2[3] == r3[0]);
    assert(s[10] == r1[7] && r1[7] == r2[4] && r2[4] == r3[1]);
    assert(s[11] == r1[8] && r1[8] == r2[5] && r2[5] == r3[2]);
    assert(s[12] == r1[9] && r1[9] == r2[6] && r2[6] == r3[3] && r3[3] == r4[0]);
    assert(s[13] == r1[10] && r1[10] == r2[7] && r2[7] == r3[4] && r3[4] == r4[1]);
    assert(s[14] == r1[11] && r1[11] == r2[8] && r2[8] == r3[5] && r3[5] == r4[2]);
    assert(s[15] == r1[12] && r1[12] == r2[9] && r2[9] == r3[6] && r3[6] == r4[3] && r4[3] == r5[0]);
    assert(s[16] == r1[13] && r1[13] == r2[10] && r2[10] == r3[7] && r3[7] == r4[4] && r4[4]
        == r5[1]);
}

/// A hardware address is six pairs of hexadecimal digits with colons between them, not all
/// zero, with an even first byte, and denotes the bytes of these pairs. Nothing else is
/// one.
pub proof fn law_hardware_addresses(s: Seq<u8>)
    ensures
        clients::mac(s) is Ok <==> six_pairs(s) && pair_values(s) != seq![0int, 0, 0, 0, 0, 0]
            && pair_value(s, 0) % 2 == 0,
        clients::mac(s) matches Ok(octets) ==> octets.len() == 6 && forall|k: int|
            0 <= k < 6 ==> #[trigger] octets[k] == pair_values(s)[k],
{
    if clients::mac(s) is Ok {
        lemma_parts_are_pairs(s);
    }
    if six_pairs(s) {
        lemma_six_parts(s);
        let parts = clients::mac_parts(s);
        lemma_pair(parts[0]);
        lemma_pair(parts[1]);
        lemma_pair(parts[2]);
        lemma_pair(parts[3]);
        lemma_pair(parts[4]);
        lemma_pair(parts[5]);
        assert forall|i: int| 0 <= i < 6 implies text::all_digits(#[trigger] parts[i], 16) by {
            assert(i == 0 || i == 1 || i == 2 || i == 3 || i == 4 || i == 5);
        }
        assert forall|i: int| 0 <= i < 6 implies (#[trigger] parts[i]).len() == 2 by {
            assert(i == 0 || i == 1 || i == 2 || i == 3 || i == 4 || i == 5);
        }
        let octets = Seq::new(6, |i: int| text::digits_value(parts[i], 16) as u8);
        let values = pair_values(s);
        assert(octets[0] == values[0] && octets[1] == values[1] && octets[2] == values[2]
            && octets[3] == values[3] && octets[4] == values[4] && octets[5] == values[5]);
        let zeros = Seq::new(6, |i: int| 0u8);
        let none = seq![0int, 0, 0, 0, 0, 0];
        if octets == zeros {
            assert(octets[0] == zeros[0] && octets[1] == zeros[1] && octets[2] == zeros[2]
                && octets[3] == zeros[3] && octets[4] == zeros[4] && octets[5] == zeros[5]);
            assert(values =~= none);
        }
        if values == none {
            assert(values[0] == none[0] && values[1] == none[1] && values[2] == none[2] && values[3]
                == none[3] && values[4] == none[4] && values[5] == none[5]);
            assert(octets =~= zeros);
        }
    }
}

/// The number that hexadecimal digits denote.
pub open spec fn hex_number(s: Seq<char>) -> int
    decreases s.len(),
{
    if s.len() == 0 {
        0
    } else {
        hex_number(s.drop_last()) * 16 + hex_value(s.last() as u8)
    }
}

/// A power of sixteen.
pub open spec fn sixteens(n: nat) -> int
    decreases n,
{
    if n == 0 {
        1
    } else {
        16 * sixteens((n - 1) as nat)
    }
}

/// A number is written in as many hexadecimal digits as asked for, in lower case, and they
/// denote it where it fits.
pub proof fn law_hexadecimal_notation(n: nat, width: nat)
    ensures
        text::hex(n, width).len() == width,
        forall|i: int|
            0 <= i < width ==> '0' <= #[trigger] text::hex(n, width)[i] <= '9' || 'a' <= text::hex(
                n,
                width,
            )[i] <= 'f',
        n < sixteens(width) ==> hex_number(text::hex(n, width)) == n,
    decreases width,
{
    if width > 0 {
        law_hexadecimal_notation(n / 16, (width - 1) as nat);
        let s = text::hex(n, width);
        assert(s.drop_last() =~= text::hex(n / 16, (width - 1) as nat));
        assert forall|i: int| 0 <= i < width implies '0' <= #[trigger] s[i] <= '9' || 'a' <= s[i]
            <= 'f' by {
            if i < width - 1 {
                assert(s[i] == text::hex(n / 16, (width - 1) as nat)[i]);
            }
        }
        assert(n < sixteens(width) ==> n / 16 < sixteens((width - 1) as nat));
    }
}

} // verus!
