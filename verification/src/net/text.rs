//! Canonical textual rendering of IP and socket addresses.
//!
//! The canonical form of each value is stated as a specification
//! function over sequences of characters: decimal and lowercase
//! hexadecimal numerals without leading zeros, dotted octets for IPv4,
//! and colon-joined groups with the leftmost-longest zero run elided as
//! `::` for IPv6.  An IPv6 address whose upper 96 bits match the
//! IPv4-mapped prefix may, as a policy choice, render its low 32 bits
//! in dotted form.  The round-trip lemmas at the end relate these
//! renderings to the parsing grammar: parsing a canonical form yields
//! the value it was rendered from.

use vstd::prelude::*;
use vstd::string::StringExecFns;

use crate::net::parse::{
    dec_run, dec_token, dec_v, dec_value, groups_at, hex_run, hex_v, hex_value, hextet_at, ipv4_at,
    ipv6_at, is_dec, is_hex, lemma_dec_run_chars, lemma_dec_run_is, lemma_hex_run_is,
    lemma_ipv4_first_sep, lemma_ipv4_refuses_colon, lemma_pow10_le, lemma_pow16_le, port_at,
    scope_at,
    lemma_pow_vals, octets_at, pow10, pow16, seg_of, spec_parse_ipv4, spec_parse_ipv6,
    spec_parse_sock4, spec_parse_sock6, zero_segs,
};

verus! {

/// The character of a decimal digit.
pub open spec fn dec_digit(d: int) -> char {
    if d == 0 {
        '0'
    } else if d == 1 {
        '1'
    } else if d == 2 {
        '2'
    } else if d == 3 {
        '3'
    } else if d == 4 {
        '4'
    } else if d == 5 {
        '5'
    } else if d == 6 {
        '6'
    } else if d == 7 {
        '7'
    } else if d == 8 {
        '8'
    } else {
        '9'
    }
}

/// The character of a hexadecimal digit, lowercase.
pub open spec fn hex_digit(d: int) -> char {
    if d < 10 {
        dec_digit(d)
    } else if d == 10 {
        'a'
    } else if d == 11 {
        'b'
    } else if d == 12 {
        'c'
    } else if d == 13 {
        'd'
    } else if d == 14 {
        'e'
    } else {
        'f'
    }
}

/// The decimal numeral of `n`, without leading zeros.
pub open spec fn dec_text(n: int) -> Seq<char>
    decreases n,
{
    if n < 10 {
        seq![dec_digit(n)]
    } else {
        dec_text(n / 10).push(dec_digit(n % 10))
    }
}

/// The lowercase hexadecimal numeral of `n`, without leading zeros.
pub open spec fn hex_text(n: int) -> Seq<char>
    decreases n,
{
    if n < 16 {
        seq![hex_digit(n)]
    } else {
        hex_text(n / 16).push(hex_digit(n % 16))
    }
}

/// A digit character is a digit and carries its value.
pub proof fn lemma_dec_digit(d: int)
    requires
        0 <= d <= 9,
    ensures
        is_dec(dec_digit(d)),
        dec_v(dec_digit(d)) == d,
{
}

/// A hex digit character is a hex digit and carries its value.
pub proof fn lemma_hex_digit(d: int)
    requires
        0 <= d <= 15,
    ensures
        is_hex(hex_digit(d)),
        hex_v(hex_digit(d)) == d,
{
}

/// The decimal numeral of a nonnegative number is made of digits, has
/// its stated value, and does not start with `0` unless it is `0`.
pub proof fn lemma_dec_text_props(n: int)
    requires
        0 <= n,
    ensures
        dec_text(n).len() >= 1,
        forall|k: int| 0 <= k < dec_text(n).len() ==> is_dec(#[trigger] dec_text(n)[k]),
        dec_value(dec_text(n)) == n,
        n >= 1 ==> dec_text(n)[0] != '0',
        n < 10 ==> dec_text(n).len() == 1,
    decreases n,
{
    if n < 10 {
        lemma_dec_digit(n);
        assert(seq![dec_digit(n)].drop_last() =~= Seq::<char>::empty());
        assert(dec_value(Seq::<char>::empty()) == 0);
        assert(seq![dec_digit(n)].last() == dec_digit(n));
    } else {
        lemma_dec_text_props(n / 10);
        lemma_dec_digit(n % 10);
        let u = dec_text(n / 10);
        let t = u.push(dec_digit(n % 10));
        assert(t.drop_last() =~= u);
        assert(t.last() == dec_digit(n % 10));
        assert(dec_value(t) == dec_value(u) * 10 + dec_v(dec_digit(n % 10)));
        vstd::arithmetic::div_mod::lemma_fundamental_div_mod(n, 10);
        assert(dec_value(t) == n);
        assert(t[0] == u[0]);
        assert forall|k: int| 0 <= k < t.len() implies is_dec(#[trigger] t[k]) by {
            if k < u.len() {
                assert(t[k] == u[k]);
            }
        }
    }
}

/// The hexadecimal numeral of a nonnegative number is made of hex
/// digits and has its stated value.
pub proof fn lemma_hex_text_props(n: int)
    requires
        0 <= n,
    ensures
        hex_text(n).len() >= 1,
        forall|k: int| 0 <= k < hex_text(n).len() ==> is_hex(#[trigger] hex_text(n)[k]),
        hex_value(hex_text(n)) == n,
        n < 16 ==> hex_text(n).len() == 1,
    decreases n,
{
    if n < 16 {
        lemma_hex_digit(n);
        assert(seq![hex_digit(n)].drop_last() =~= Seq::<char>::empty());
        assert(hex_value(Seq::<char>::empty()) == 0);
        assert(seq![hex_digit(n)].last() == hex_digit(n));
    } else {
        lemma_hex_text_props(n / 16);
        lemma_hex_digit(n % 16);
        let u = hex_text(n / 16);
        let t = u.push(hex_digit(n % 16));
        assert(t.drop_last() =~= u);
        assert(t.last() == hex_digit(n % 16));
        assert(hex_value(t) == hex_value(u) * 16 + hex_v(hex_digit(n % 16)));
        vstd::arithmetic::div_mod::lemma_fundamental_div_mod(n, 16);
        assert(hex_value(t) == n);
        assert forall|k: int| 0 <= k < t.len() implies is_hex(#[trigger] t[k]) by {
            if k < u.len() {
                assert(t[k] == u[k]);
            }
        }
    }
}

/// A number below the `k`-th power of ten needs at most `k` decimal digits.
pub proof fn lemma_dec_text_len(n: int, k: nat)
    requires
        0 <= n < pow10(k),
        1 <= k,
    ensures
        dec_text(n).len() <= k,
    decreases k,
{
    if n < 10 {
    } else {
        lemma_pow10_le(1, k);
        lemma_pow_vals();
        if k == 1 {
            assert(false);
        }
        vstd::arithmetic::div_mod::lemma_fundamental_div_mod(n, 10);
        assert(n / 10 < pow10((k - 1) as nat));
        lemma_dec_text_len(n / 10, (k - 1) as nat);
    }
}

/// A number below the `k`-th power of sixteen needs at most `k` hex digits.
pub proof fn lemma_hex_text_len(n: int, k: nat)
    requires
        0 <= n < pow16(k),
        1 <= k,
    ensures
        hex_text(n).len() <= k,
    decreases k,
{
    if n < 16 {
    } else {
        lemma_pow16_le(1, k);
        lemma_pow_vals();
        if k == 1 {
            assert(false);
        }
        vstd::arithmetic::div_mod::lemma_fundamental_div_mod(n, 16);
        assert(n / 16 < pow16((k - 1) as nat));
        lemma_hex_text_len(n / 16, (k - 1) as nat);
    }
}

/// Reading a decimal field off a rendered numeral gives the number
/// back, provided what follows cannot extend the digit run.
pub proof fn lemma_dec_token_of_text(
    n: int,
    max_digits: nat,
    max_value: int,
    fzp: bool,
    rest: Seq<char>,
)
    requires
        0 <= n <= max_value,
        1 <= max_digits,
        dec_text(n).len() <= max_digits,
        rest.len() == 0 || !is_dec(rest[0]),
    ensures
        dec_token(dec_text(n) + rest, max_digits, max_value, fzp) == Some(
            (n, dec_text(n).len()),
        ),
{
    let t = dec_text(n);
    let s = t + rest;
    lemma_dec_text_props(n);
    assert forall|k: int| 0 <= k < t.len() implies is_dec(#[trigger] s[k]) by {
        assert(s[k] == t[k]);
    }
    if (t.len() as int) < s.len() {
        assert(s[t.len() as int] == rest[0]);
    }
    lemma_dec_run_is(s, t.len() as int);
    assert(s.take(t.len() as int) =~= t);
    assert(s[0] == t[0]);
}

/// Reading an IPv6 group off a rendered numeral gives the number back,
/// provided what follows cannot extend the digit run.
pub proof fn lemma_hextet_of_text(v: u16, rest: Seq<char>)
    requires
        rest.len() == 0 || !is_hex(rest[0]),
    ensures
        hextet_at(hex_text(v as int) + rest) == Some((v, hex_text(v as int).len())),
{
    let t = hex_text(v as int);
    let s = t + rest;
    lemma_hex_text_props(v as int);
    lemma_pow_vals();
    lemma_hex_text_len(v as int, 4);
    assert forall|k: int| 0 <= k < t.len() implies is_hex(#[trigger] s[k]) by {
        assert(s[k] == t[k]);
    }
    if (t.len() as int) < s.len() {
        assert(s[t.len() as int] == rest[0]);
    }
    lemma_hex_run_is(s, t.len() as int);
    assert(s.take(t.len() as int) =~= t);
}

/// The dotted decimal text of a run of octets.
pub open spec fn octets_text(o: Seq<u8>) -> Seq<char>
    decreases o.len(),
{
    if o.len() == 0 {
        Seq::empty()
    } else if o.len() == 1 {
        dec_text(o[0] as int)
    } else {
        dec_text(o[0] as int) + seq!['.'] + octets_text(o.drop_first())
    }
}

/// The canonical text of an IPv4 address: four dotted octets.
pub open spec fn ipv4_text(o: Seq<u8>) -> Seq<char> {
    octets_text(o)
}

/// Length of the run of zero segments starting at `i`.
pub open spec fn run_len_at(g: Seq<u16>, i: int) -> nat
    decreases g.len() - i,
{
    if 0 <= i < g.len() && g[i] == 0 {
        (1 + run_len_at(g, i + 1)) as nat
    } else {
        0
    }
}

/// Start of the leftmost longest zero run in `[i, len)`; `g.len()`
/// when the range is empty.
pub open spec fn best_run_from(g: Seq<u16>, i: int) -> int
    decreases g.len() - i,
{
    if i < g.len() {
        let b = best_run_from(g, i + 1);
        if run_len_at(g, i) >= run_len_at(g, b) {
            i
        } else {
            b
        }
    } else {
        i
    }
}

/// Start of the leftmost longest zero run.
pub open spec fn best_run(g: Seq<u16>) -> int {
    best_run_from(g, 0)
}

/// The colon-joined lowercase hex text of a run of segments.
pub open spec fn segs_text(g: Seq<u16>) -> Seq<char>
    decreases g.len(),
{
    if g.len() == 0 {
        Seq::empty()
    } else if g.len() == 1 {
        hex_text(g[0] as int)
    } else {
        hex_text(g[0] as int) + seq![':'] + segs_text(g.drop_first())
    }
}

/// The canonical hex-groups text of an IPv6 address: the leftmost
/// longest zero run of length at least two is elided as `::`.
pub open spec fn ipv6_hex_text(g: Seq<u16>) -> Seq<char> {
    let b = best_run(g);
    let r = run_len_at(g, b) as int;
    if r >= 2 {
        segs_text(g.take(b)) + seq![':', ':'] + segs_text(g.skip(b + r))
    } else {
        segs_text(g)
    }
}

/// High octet of a segment.
pub open spec fn seg_hi(v: u16) -> u8 {
    (v as int / 256) as u8
}

/// Low octet of a segment.
pub open spec fn seg_lo(v: u16) -> u8 {
    (v as int % 256) as u8
}

/// Whether eight segments carry the IPv4-mapped prefix `::ffff:0:0/96`.
pub open spec fn is_v4_mapped_segs(g: Seq<u16>) -> bool {
    g.len() == 8 && g[0] == 0 && g[1] == 0 && g[2] == 0 && g[3] == 0 && g[4] == 0 && g[5] == 0xffff
}

/// The low four octets of a mapped address, in order.
pub open spec fn mapped_octets(g: Seq<u16>) -> Seq<u8> {
    seq![seg_hi(g[6]), seg_lo(g[6]), seg_hi(g[7]), seg_lo(g[7])]
}

/// The canonical text of an IPv6 address.  When `mapped_dotted` is set,
/// an IPv4-mapped address renders its low 32 bits in dotted form,
/// `::ffff:a.b.c.d`; otherwise plain hex groups are used throughout.
pub open spec fn ipv6_text(g: Seq<u16>, mapped_dotted: bool) -> Seq<char> {
    if mapped_dotted && is_v4_mapped_segs(g) {
        seq![':', ':', 'f', 'f', 'f', 'f', ':'] + ipv4_text(mapped_octets(g))
    } else {
        ipv6_hex_text(g)
    }
}

/// The canonical text of an IPv4 socket address, `ip:port`.
pub open spec fn sock4_text(o: Seq<u8>, port: u16) -> Seq<char> {
    ipv4_text(o) + seq![':'] + dec_text(port as int)
}

/// The canonical text of an IPv6 socket address, `[ip]:port` with the
/// scope as `[ip%scope]:port` when it is nonzero.
pub open spec fn sock6_text(g: Seq<u16>, port: u16, scope: u32) -> Seq<char> {
    seq!['['] + ipv6_text(g, true) + (if scope == 0 {
        Seq::<char>::empty()
    } else {
        seq!['%'] + dec_text(scope as int)
    }) + seq![']', ':'] + dec_text(port as int)
}

/// Every segment inside a zero run is zero.
pub proof fn lemma_run_zeros(g: Seq<u16>, i: int, k: int)
    requires
        0 <= i <= k,
        k < i + run_len_at(g, i),
    ensures
        k < g.len() && g[k] == 0,
    decreases k - i,
{
    if k > i {
        lemma_run_zeros(g, i + 1, k);
    }
}

/// A zero run stays inside the sequence and ends at a nonzero segment
/// or at the end.
pub proof fn lemma_run_end(g: Seq<u16>, i: int)
    requires
        0 <= i <= g.len(),
    ensures
        i + run_len_at(g, i) <= g.len(),
        i + run_len_at(g, i) == g.len() || g[i + run_len_at(g, i)] != 0,
    decreases g.len() - i,
{
    if i < g.len() && g[i] == 0 {
        lemma_run_end(g, i + 1);
    }
}

/// The chosen run start is in range, its run is longest, and every
/// equally long run starts at or after it.
pub proof fn lemma_best_run_from(g: Seq<u16>, i: int)
    requires
        0 <= i <= g.len(),
    ensures
        i <= best_run_from(g, i) <= g.len(),
        forall|j: int|
            i <= j < g.len() ==> #[trigger] run_len_at(g, j) <= run_len_at(g, best_run_from(g, i)),
        forall|j: int|
            i <= j < best_run_from(g, i) ==> #[trigger] run_len_at(g, j) < run_len_at(
                g,
                best_run_from(g, i),
            ),
    decreases g.len() - i,
{
    if i < g.len() {
        lemma_best_run_from(g, i + 1);
    }
}

/// Reading dotted octets off their rendering gives them back, provided
/// what follows cannot extend the last digit run.
pub proof fn lemma_octets_at_of_text(o: Seq<u8>, rest: Seq<char>)
    requires
        1 <= o.len() <= 4,
        rest.len() == 0 || !is_dec(rest[0]),
    ensures
        octets_at(octets_text(o) + rest, o.len() as nat) == Some(
            (o, octets_text(o).len() as nat),
        ),
    decreases o.len(),
{
    lemma_pow_vals();
    let t = octets_text(o);
    let s = t + rest;
    lemma_dec_text_len(o[0] as int, 3);
    if o.len() == 1 {
        lemma_dec_token_of_text(o[0] as int, 3, 255, true, rest);
        assert(dec_text(o[0] as int) + rest =~= s);
        assert(o =~= seq![o[0]]);
    } else {
        let o2 = o.drop_first();
        let rest2 = seq!['.'] + octets_text(o2) + rest;
        lemma_dec_token_of_text(o[0] as int, 3, 255, true, rest2);
        assert(dec_text(o[0] as int) + rest2 =~= s);
        let n = dec_text(o[0] as int).len() as int;
        assert(s[n] == '.');
        lemma_octets_at_of_text(o2, rest);
        assert(s.skip(n + 1) =~= octets_text(o2) + rest);
        assert(seq![o[0]] + o2 =~= o);
    }
}

/// Reading an IPv4 address off its rendering gives it back.
pub proof fn lemma_ipv4_at_of_text(o: Seq<u8>, rest: Seq<char>)
    requires
        o.len() == 4,
        rest.len() == 0 || !is_dec(rest[0]),
    ensures
        ipv4_at(ipv4_text(o) + rest) == Some((o, ipv4_text(o).len() as nat)),
{
    lemma_octets_at_of_text(o, rest);
}

/// Round trip for IPv4: parsing the canonical text yields the octets.
pub proof fn lemma_parse_of_ipv4_text(o: Seq<u8>)
    requires
        o.len() == 4,
    ensures
        spec_parse_ipv4(ipv4_text(o)) == Some(o),
{
    lemma_ipv4_at_of_text(o, Seq::empty());
    assert(ipv4_text(o) + Seq::<char>::empty() =~= ipv4_text(o));
}

/// Reading IPv6 groups off their colon-joined rendering gives them
/// back, provided what follows can neither extend the last group nor
/// start another one.
#[verifier::rlimit(60)]
#[verifier::spinoff_prover]
pub proof fn lemma_groups_of_segs_text(g: Seq<u16>, first: bool, limit: nat, rest: Seq<char>)
    requires
        1 <= g.len() <= limit <= 8,
        rest.len() == 0 || (!is_hex(rest[0]) && rest[0] != '.'),
        g.len() < limit ==> (rest.len() == 0 || rest[0] != ':' || (rest.len() >= 2 && !is_hex(
            rest[1],
        ) && rest[1] != '.')),
    ensures
        ({
            let sep: Seq<char> = if first {
                Seq::empty()
            } else {
                seq![':']
            };
            groups_at(sep + segs_text(g) + rest, first, limit) == (
                g,
                (sep.len() + segs_text(g).len()) as nat,
                false,
            )
        }),
    decreases g.len(),
{
    let sep: Seq<char> = if first {
        Seq::empty()
    } else {
        seq![':']
    };
    let text = segs_text(g);
    let s = sep + text + rest;
    let h = hex_text(g[0] as int);
    lemma_hex_text_props(g[0] as int);
    let hl = h.len() as int;
    let tail_text: Seq<char> = if g.len() == 1 {
        rest
    } else {
        seq![':'] + segs_text(g.drop_first()) + rest
    };
    assert(s.skip(sep.len() as int) =~= h + tail_text);
    let t = s.skip(sep.len() as int);
    if !first {
        assert(s[0] == ':');
    }
    if g.len() > 1 {
        assert(tail_text[0] == ':');
    }
    // the embedded-IPv4 attempt fails at this group
    lemma_ipv4_first_sep(t);
    if ipv4_at(t) is Some {
        let n = dec_run(t) as int;
        lemma_dec_run_chars(t);
        if n > hl {
            assert(is_dec(t[hl]));
            assert(t[hl] == tail_text[0]);
            assert(false);
        } else if n < hl {
            assert(t[n] == h[n]);
            assert(is_hex(h[n]));
            assert(false);
        } else {
            assert(t[n] == tail_text[0]);
            assert(false);
        }
    }
    // the group itself reads back
    lemma_hextet_of_text(g[0], tail_text);
    assert(hextet_at(t) == Some((g[0], hl as nat)));
    assert(t.skip(hl) =~= tail_text);
    if g.len() == 1 {
        let lim2 = (limit - 1) as nat;
        if lim2 == 0 {
        } else if rest.len() == 0 || rest[0] != ':' {
        } else {
            let u = rest.skip(1);
            if u.len() > 0 {
                assert(u[0] == rest[1]);
            }
            assert(dec_run(u) == 0);
            lemma_ipv4_first_sep(u);
            assert(ipv4_at(u) is None);
            assert(hex_run(u) == 0);
            assert(hextet_at(u) is None);
        }
        assert(groups_at(rest, false, lim2) == (Seq::<u16>::empty(), 0nat, false));
        assert(seq![g[0]] + Seq::<u16>::empty() =~= g);
    } else {
        let g2 = g.drop_first();
        lemma_groups_of_segs_text(g2, false, (limit - 1) as nat, rest);
        assert(tail_text == seq![':'] + segs_text(g2) + rest);
        assert(seq![g[0]] + g2 =~= g);
    }
}

/// Group reading stops at once on input that cannot start a group.
pub proof fn lemma_groups_fail(u: Seq<char>, limit: nat)
    requires
        u.len() == 0 || !is_hex(u[0]),
    ensures
        groups_at(u, true, limit) == (Seq::<u16>::empty(), 0nat, false),
{
    if limit > 0 {
        assert(dec_run(u) == 0);
        lemma_ipv4_first_sep(u);
        assert(ipv4_at(u) is None);
        assert(hex_run(u) == 0);
        assert(hextet_at(u) is None);
    }
}

/// Reading an IPv4-mapped IPv6 address off its dotted rendering.
#[verifier::rlimit(80)]
#[verifier::spinoff_prover]
proof fn lemma_ipv6_at_of_mapped_text(g: Seq<u16>, rest: Seq<char>)
    requires
        is_v4_mapped_segs(g),
        rest.len() == 0 || (!is_hex(rest[0]) && rest[0] != '.' && rest[0] != ':'),
    ensures
        ipv6_at(ipv6_text(g, true) + rest) == Some((g, ipv6_text(g, true).len() as nat)),
{
    let text = ipv6_text(g, true);
    let s = text + rest;
    let o = mapped_octets(g);
    let v4t = ipv4_text(o);
    assert(s[0] == ':');
    assert(s[1] == ':');
    lemma_groups_fail(s, 8);
    let u = s.skip(2);
    assert(u.skip(0) =~= u);
    let after_ffff = seq![':'] + v4t + rest;
    assert(u =~= seq!['f', 'f', 'f', 'f'] + after_ffff);
    assert(hex_text(0xffff) =~= seq!['f', 'f', 'f', 'f']) by {
        reveal_with_fuel(hex_text, 5);
    }
    lemma_hextet_of_text(0xffff, after_ffff);
    assert(hextet_at(u) == Some((0xffffu16, 4nat)));
    assert(dec_run(u) == 0);
    lemma_ipv4_first_sep(u);
    assert(ipv4_at(u) is None);
    let w = u.skip(4);
    assert(w =~= after_ffff);
    assert(w[0] == ':');
    assert(w.skip(1) =~= v4t + rest);
    lemma_ipv4_at_of_text(o, rest);
    vstd::arithmetic::div_mod::lemma_fundamental_div_mod(g[6] as int, 256);
    vstd::arithmetic::div_mod::lemma_fundamental_div_mod(g[7] as int, 256);
    assert(seg_of(o[0], o[1]) == g[6]);
    assert(seg_of(o[2], o[3]) == g[7]);
    assert(groups_at(w, false, 6) == (
        seq![seg_of(o[0], o[1]), seg_of(o[2], o[3])],
        (1 + v4t.len()) as nat,
        true,
    ));
    assert(seq![0xffffu16] + seq![seg_of(o[0], o[1]), seg_of(o[2], o[3])] =~= seq![
        0xffffu16,
        g[6],
        g[7],
    ]);
    assert(groups_at(u, true, 7) == (seq![0xffffu16, g[6], g[7]], (5 + v4t.len()) as nat, true));
    assert(Seq::<u16>::empty() + zero_segs(5) + seq![0xffffu16, g[6], g[7]] =~= g);
    assert(text.len() == 7 + v4t.len());
}

/// Reading an IPv6 address off its hex-groups rendering.
#[verifier::rlimit(80)]
#[verifier::spinoff_prover]
proof fn lemma_ipv6_at_of_hex_text(g: Seq<u16>, rest: Seq<char>)
    requires
        g.len() == 8,
        rest.len() == 0 || (!is_hex(rest[0]) && rest[0] != '.' && rest[0] != ':'),
    ensures
        ipv6_at(ipv6_hex_text(g) + rest) == Some((g, ipv6_hex_text(g).len() as nat)),
{
    let text = ipv6_hex_text(g);
    let s = text + rest;
    let b = best_run(g);
    lemma_best_run_from(g, 0);
    let r = run_len_at(g, b) as int;
    lemma_run_end(g, b);
    if r >= 2 {
        let front = g.take(b);
        let back = g.skip(b + r);
        let ft = segs_text(front);
        let bt = segs_text(back);
        let mid = seq![':', ':'] + bt + rest;
        assert(s =~= ft + mid);
        if b == 0 {
            assert(front.len() == 0);
            assert(ft =~= Seq::<char>::empty());
            assert(s =~= mid);
            assert(s[0] == ':');
            lemma_groups_fail(s, 8);
        } else {
            lemma_groups_of_segs_text(front, true, 8, mid);
            assert(Seq::<char>::empty() + ft + mid =~= s);
        }
        assert(groups_at(s, true, 8) == (front, ft.len() as nat, false));
        let p = ft.len() as int;
        assert(s[p] == ':');
        assert(s[p + 1] == ':');
        let u2 = s.skip(p + 2);
        assert(u2 =~= bt + rest);
        let lim = (7 - b) as nat;
        if back.len() == 0 {
            assert(bt =~= Seq::<char>::empty());
            assert(u2 =~= rest);
            lemma_groups_fail(u2, lim);
        } else {
            lemma_groups_of_segs_text(back, true, lim, rest);
            assert(Seq::<char>::empty() + bt + rest =~= u2);
        }
        assert(groups_at(u2, true, lim) == (back, bt.len() as nat, false));
        assert forall|i: int| 0 <= i < 8 implies (front + zero_segs(r as nat) + back)[i] == g[i] by {
            if b <= i < b + r {
                lemma_run_zeros(g, b, i);
            }
        }
        assert(front + zero_segs(r as nat) + back =~= g);
        assert(text.len() == ft.len() + 2 + bt.len());
    } else {
        lemma_groups_of_segs_text(g, true, 8, rest);
        assert(Seq::<char>::empty() + segs_text(g) + rest =~= s);
        assert(groups_at(s, true, 8) == (g, segs_text(g).len() as nat, false));
    }
}

/// Reading an IPv6 address off its canonical rendering gives the
/// segments back, for either policy, provided what follows can neither
/// extend a group nor start one.
pub proof fn lemma_ipv6_at_of_text(g: Seq<u16>, mapped: bool, rest: Seq<char>)
    requires
        g.len() == 8,
        rest.len() == 0 || (!is_hex(rest[0]) && rest[0] != '.' && rest[0] != ':'),
    ensures
        ipv6_at(ipv6_text(g, mapped) + rest) == Some((g, ipv6_text(g, mapped).len() as nat)),
{
    if mapped && is_v4_mapped_segs(g) {
        lemma_ipv6_at_of_mapped_text(g, rest);
    } else {
        lemma_ipv6_at_of_hex_text(g, rest);
    }
}

/// Round trip for IPv6: parsing the canonical text yields the segments,
/// for either rendering policy.
pub proof fn lemma_parse_of_ipv6_text(g: Seq<u16>, mapped: bool)
    requires
        g.len() == 8,
    ensures
        spec_parse_ipv6(ipv6_text(g, mapped)) == Some(g),
{
    lemma_ipv6_at_of_text(g, mapped, Seq::empty());
    assert(ipv6_text(g, mapped) + Seq::<char>::empty() =~= ipv6_text(g, mapped));
}

/// Round trip for IPv4 socket addresses.
#[verifier::spinoff_prover]
pub proof fn lemma_parse_of_sock4_text(o: Seq<u8>, port: u16)
    requires
        o.len() == 4,
    ensures
        spec_parse_sock4(sock4_text(o, port)) == Some((o, port)),
{
    lemma_pow_vals();
    let v4t = ipv4_text(o);
    let pt = dec_text(port as int);
    let s = sock4_text(o, port);
    let after_ip = seq![':'] + pt;
    assert(s =~= v4t + after_ip);
    lemma_ipv4_at_of_text(o, after_ip);
    let n = v4t.len() as int;
    assert(s[n] == ':');
    lemma_dec_text_len(port as int, 5);
    lemma_dec_token_of_text(port as int, 5, 65535, false, Seq::empty());
    assert(dec_text(port as int) + Seq::<char>::empty() =~= pt);
    assert(s.skip(n + 1) =~= pt);
    assert(port_at(s.skip(n + 1)) == Some((port, pt.len() as nat)));
}

/// Round trip for IPv6 socket addresses, scope included.
#[verifier::rlimit(60)]
#[verifier::spinoff_prover]
pub proof fn lemma_parse_of_sock6_text(g: Seq<u16>, port: u16, scope: u32)
    requires
        g.len() == 8,
    ensures
        spec_parse_sock6(sock6_text(g, port, scope)) == Some((g, port, scope)),
{
    lemma_pow_vals();
    let ip6 = ipv6_text(g, true);
    let pt = dec_text(port as int);
    let s = sock6_text(g, port, scope);
    lemma_dec_text_len(port as int, 5);
    lemma_dec_token_of_text(port as int, 5, 65535, false, Seq::empty());
    assert(pt + Seq::<char>::empty() =~= pt);
    assert(s[0] == '[');
    if scope == 0 {
        let rest6 = seq![']', ':'] + pt;
        assert(s.skip(1) =~= ip6 + rest6);
        lemma_ipv6_at_of_text(g, true, rest6);
        let q = 1 + ip6.len() as int;
        assert(s[q] == ']');
        assert(s[q + 1] == ':');
        assert(s[q] != '%');
        assert(s.skip(q + 2) =~= pt);
        assert(port_at(s.skip(q + 2)) == Some((port, pt.len() as nat)));
    } else {
        let st = dec_text(scope as int);
        let rest6 = seq!['%'] + st + seq![']', ':'] + pt;
        assert(s.skip(1) =~= ip6 + rest6);
        lemma_ipv6_at_of_text(g, true, rest6);
        let q = 1 + ip6.len() as int;
        assert(s[q] == '%');
        lemma_dec_text_len(scope as int, 10);
        lemma_dec_token_of_text(scope as int, 10, 0xffff_ffff, false, seq![']', ':'] + pt);
        assert(st + (seq![']', ':'] + pt) =~= s.skip(q + 1));
        assert(scope_at(s.skip(q + 1)) == Some((scope, st.len() as nat)));
        let q2 = q + 1 + st.len() as int;
        assert(s[q2] == ']');
        assert(s[q2 + 1] == ':');
        assert(s.skip(q2 + 2) =~= pt);
        assert(port_at(s.skip(q2 + 2)) == Some((port, pt.len() as nat)));
    }
}

/// Canonical rendering is idempotent: parsing a canonical form and
/// rendering the result gives the same text again.
pub proof fn lemma_ipv4_text_canonical(o: Seq<u8>)
    requires
        o.len() == 4,
    ensures
        spec_parse_ipv4(ipv4_text(o)) matches Some(p) && ipv4_text(p) == ipv4_text(o),
{
    lemma_parse_of_ipv4_text(o);
}

/// Canonical rendering is idempotent for IPv6, for either policy.
pub proof fn lemma_ipv6_text_canonical(g: Seq<u16>, mapped: bool)
    requires
        g.len() == 8,
    ensures
        spec_parse_ipv6(ipv6_text(g, mapped)) matches Some(p) && ipv6_text(p, mapped) == ipv6_text(
            g,
            mapped,
        ),
{
    lemma_parse_of_ipv6_text(g, mapped);
}

/// The zero-run length characterized: zeros up to a boundary.
pub proof fn lemma_run_len_is(g: Seq<u16>, i: int, n: int)
    requires
        0 <= i,
        0 <= n,
        i + n <= g.len(),
        forall|k: int| i <= k < i + n ==> #[trigger] g[k] == 0,
        i + n == g.len() || g[i + n] != 0,
    ensures
        run_len_at(g, i) == n,
    decreases n,
{
    if n > 0 {
        assert(g[i] == 0);
        lemma_run_len_is(g, i + 1, n - 1);
    }
}

/// One character of text per digit value.
fn digit_str(d: u8) -> (r: &'static str)
    requires
        d < 16,
    ensures
        r@ == seq![hex_digit(d as int)],
        d < 10 ==> r@ == seq![dec_digit(d as int)],
{
    proof {
        reveal_strlit("0");
        reveal_strlit("1");
        reveal_strlit("2");
        reveal_strlit("3");
        reveal_strlit("4");
        reveal_strlit("5");
        reveal_strlit("6");
        reveal_strlit("7");
        reveal_strlit("8");
        reveal_strlit("9");
        reveal_strlit("a");
        reveal_strlit("b");
        reveal_strlit("c");
        reveal_strlit("d");
        reveal_strlit("e");
        reveal_strlit("f");
    }
    let r = match d {
        0 => "0",
        1 => "1",
        2 => "2",
        3 => "3",
        4 => "4",
        5 => "5",
        6 => "6",
        7 => "7",
        8 => "8",
        9 => "9",
        10 => "a",
        11 => "b",
        12 => "c",
        13 => "d",
        14 => "e",
        _ => "f",
    };
    proof {
        assert(r@ =~= seq![hex_digit(d as int)]);
        if d < 10 {
            assert(r@ =~= seq![dec_digit(d as int)]);
        }
    }
    r
}

/// Appends the decimal numeral of `n`.
pub(crate) fn push_dec(out: &mut String, n: u64)
    ensures
        final(out)@ == old(out)@ + dec_text(n as int),
    decreases n,
{
    if n < 10 {
        out.append(digit_str(n as u8));
        proof {
            assert(final(out)@ =~= old(out)@ + dec_text(n as int));
        }
    } else {
        let ghost pre = out@;
        push_dec(out, n / 10);
        out.append(digit_str((n % 10) as u8));
        proof {
            assert(final(out)@ =~= pre + dec_text(n as int));
        }
    }
}

/// Appends the lowercase hexadecimal numeral of `v`.
pub(crate) fn push_hex(out: &mut String, v: u16)
    ensures
        final(out)@ == old(out)@ + hex_text(v as int),
    decreases v,
{
    if v < 16 {
        out.append(digit_str(v as u8));
        proof {
            assert(final(out)@ =~= old(out)@ + hex_text(v as int));
        }
    } else {
        let ghost pre = out@;
        push_hex(out, v / 16);
        out.append(digit_str((v % 16) as u8));
        proof {
            assert(final(out)@ =~= pre + hex_text(v as int));
        }
    }
}

/// Appends the colon-joined hex text of the segments in `[lo, hi)`.
pub(crate) fn push_segs(out: &mut String, arr: &[u16; 8], lo: usize, hi: usize)
    requires
        lo <= hi <= 8,
    ensures
        final(out)@ == old(out)@ + segs_text(arr@.subrange(lo as int, hi as int)),
    decreases hi - lo,
{
    proof {
        reveal_strlit(":");
    }
    if lo == hi {
        proof {
            assert(arr@.subrange(lo as int, hi as int) =~= Seq::<u16>::empty());
            assert(final(out)@ =~= old(out)@ + segs_text(Seq::<u16>::empty()));
        }
    } else {
        let ghost pre = out@;
        let ghost sub = arr@.subrange(lo as int, hi as int);
        let x = arr[lo];
        push_hex(out, x);
        if lo + 1 < hi {
            out.append(":");
            proof {
                assert((":")@ =~= seq![':']);
            }
        }
        push_segs(out, arr, lo + 1, hi);
        proof {
            assert(sub.drop_first() =~= arr@.subrange(lo as int + 1, hi as int));
            assert(sub[0] == arr@[lo as int]);
            if lo + 1 < hi {
                assert(segs_text(sub) == hex_text(x as int) + seq![':'] + segs_text(
                    sub.drop_first(),
                ));
                assert(final(out)@ =~= pre + segs_text(sub));
            } else {
                assert(segs_text(sub) == hex_text(x as int));
                assert(final(out)@ =~= pre + segs_text(sub));
            }
        }
    }
}

/// The length of the zero run starting at `i`.
pub(crate) fn run_at(arr: &[u16; 8], i: usize) -> (r: usize)
    requires
        i <= 8,
    ensures
        r == run_len_at(arr@, i as int),
        i + r <= 8,
{
    let mut j = i;
    loop
        invariant
            i <= j <= 8,
            arr@.len() == 8,
            forall|k: int| i <= k < j ==> #[trigger] arr@[k] == 0,
        ensures
            i <= j <= 8,
            forall|k: int| i <= k < j ==> #[trigger] arr@[k] == 0,
            j == 8 || arr@[j as int] != 0,
        decreases 8 - j,
    {
        if j >= 8 {
            break ;
        }
        if arr[j] != 0 {
            break ;
        }
        j += 1;
    }
    proof {
        lemma_run_len_is(arr@, i as int, j - i);
    }
    j - i
}

/// The start and length of the leftmost longest zero run.
pub(crate) fn best_run_exec(arr: &[u16; 8]) -> (r: (usize, usize))
    ensures
        r.0 == best_run(arr@),
        r.1 == run_len_at(arr@, best_run(arr@)),
        r.0 + r.1 <= 8,
{
    let mut b: usize = 8;
    let mut i: usize = 8;
    while i > 0
        invariant
            0 <= i <= 8,
            i <= b <= 8,
            arr@.len() == 8,
            b == best_run_from(arr@, i as int),
        decreases i,
    {
        i -= 1;
        let run_i = run_at(arr, i);
        let run_b = run_at(arr, b);
        if run_i >= run_b {
            b = i;
        }
    }
    let rl = run_at(arr, b);
    (b, rl)
}

/// Canonical rendering is idempotent for IPv4 socket addresses.
pub proof fn lemma_sock4_text_canonical(o: Seq<u8>, port: u16)
    requires
        o.len() == 4,
    ensures
        spec_parse_sock4(sock4_text(o, port)) matches Some(p) && sock4_text(p.0, p.1)
            == sock4_text(o, port),
{
    lemma_parse_of_sock4_text(o, port);
}

/// Canonical rendering is idempotent for IPv6 socket addresses.
pub proof fn lemma_sock6_text_canonical(g: Seq<u16>, port: u16, scope: u32)
    requires
        g.len() == 8,
    ensures
        spec_parse_sock6(sock6_text(g, port, scope)) matches Some(p) && sock6_text(p.0, p.1, p.2)
            == sock6_text(g, port, scope),
{
    lemma_parse_of_sock6_text(g, port, scope);
}

/// The canonical text of an IPv6 address always contains a colon.
pub proof fn lemma_ipv6_text_has_colon(g: Seq<u16>, mapped: bool)
    requires
        g.len() == 8,
    ensures
        exists|k: int|
            0 <= k < ipv6_text(g, mapped).len() && #[trigger] ipv6_text(g, mapped)[k] == ':',
{
    let text = ipv6_text(g, mapped);
    if mapped && is_v4_mapped_segs(g) {
        assert(text[0] == ':');
    } else {
        let b = best_run(g);
        let r = run_len_at(g, b) as int;
        if r >= 2 {
            let ft = segs_text(g.take(b));
            assert(text[ft.len() as int] == ':');
        } else {
            let h = hex_text(g[0] as int);
            lemma_hex_text_props(g[0] as int);
            assert(text[h.len() as int] == ':');
        }
    }
}

/// The IPv4 grammar refuses every canonical IPv6 text, so family
/// dispatch that tries IPv4 first still recovers an IPv6 address from
/// its canonical text.
pub proof fn lemma_parse_of_ipv6_text_dispatch(g: Seq<u16>, mapped: bool)
    requires
        g.len() == 8,
    ensures
        spec_parse_ipv4(ipv6_text(g, mapped)) is None,
        spec_parse_ipv6(ipv6_text(g, mapped)) == Some(g),
{
    lemma_ipv6_text_has_colon(g, mapped);
    let k = choose|k: int|
        0 <= k < ipv6_text(g, mapped).len() && #[trigger] ipv6_text(g, mapped)[k] == ':';
    lemma_ipv4_refuses_colon(ipv6_text(g, mapped), k);
    lemma_parse_of_ipv6_text(g, mapped);
}

} // verus!
