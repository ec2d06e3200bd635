//! The textual grammar of IP and socket addresses.
//!
//! The grammar is stated as deterministic specification functions over
//! sequences of characters.  Each `..._at` function reads one production
//! from the head of its input and reports the value read together with
//! how many characters it spans; the `spec_parse_...` functions demand
//! that the whole input is consumed.  The executable scanners below are
//! verified to compute exactly these functions.
//!
//! Shape of the grammar:
//! - IPv4: four decimal octet groups joined by `.`; each group is 1–3
//!   digits, value at most 255, with no leading zero unless the group is
//!   exactly `0`.
//! - IPv6: up to eight hexadecimal groups of 1–4 digits joined by `:`;
//!   at most one `::` elision standing for the zero groups needed to
//!   reach eight; a dotted IPv4 address may stand for the final two
//!   groups.
//! - Sockets: `<ipv4>:<port>` and `[<ipv6>]:<port>` or
//!   `[<ipv6>%<scope>]:<port>`, the port being 1–5 decimal digits with
//!   value at most 65535 and the scope a decimal 32-bit value.

use vstd::prelude::*;

verus! {

/// Decimal digit.
pub open spec fn is_dec(c: char) -> bool {
    '0' as int <= c as int <= '9' as int
}

/// Value of a decimal digit.
pub open spec fn dec_v(c: char) -> int {
    c as int - '0' as int
}

/// Hexadecimal digit, either case.
pub open spec fn is_hex(c: char) -> bool {
    is_dec(c) || 'a' as int <= c as int <= 'f' as int || 'A' as int <= c as int <= 'F' as int
}

/// Value of a hexadecimal digit.
pub open spec fn hex_v(c: char) -> int {
    if is_dec(c) {
        dec_v(c)
    } else if 'a' as int <= c as int <= 'f' as int {
        c as int - 'a' as int + 10
    } else {
        c as int - 'A' as int + 10
    }
}

/// Length of the maximal run of decimal digits at the head of `s`.
pub open spec fn dec_run(s: Seq<char>) -> nat
    decreases s.len(),
{
    if s.len() > 0 && is_dec(s[0]) {
        (1 + dec_run(s.drop_first())) as nat
    } else {
        0
    }
}

/// Length of the maximal run of hexadecimal digits at the head of `s`.
pub open spec fn hex_run(s: Seq<char>) -> nat
    decreases s.len(),
{
    if s.len() > 0 && is_hex(s[0]) {
        (1 + hex_run(s.drop_first())) as nat
    } else {
        0
    }
}

/// Numeric value of a sequence of decimal digits.
pub open spec fn dec_value(s: Seq<char>) -> int
    decreases s.len(),
{
    if s.len() == 0 {
        0
    } else {
        dec_value(s.drop_last()) * 10 + dec_v(s.last())
    }
}

/// Numeric value of a sequence of hexadecimal digits.
pub open spec fn hex_value(s: Seq<char>) -> int
    decreases s.len(),
{
    if s.len() == 0 {
        0
    } else {
        hex_value(s.drop_last()) * 16 + hex_v(s.last())
    }
}

/// A decimal field at the head of `s`: the maximal digit run, required
/// to span 1 to `max_digits` digits and to have value at most
/// `max_value`; a run of several digits may not start with `0` when
/// `forbid_zero_prefix` is set.  Yields the value and the span.
pub open spec fn dec_token(s: Seq<char>, max_digits: nat, max_value: int, forbid_zero_prefix: bool) -> Option<
    (int, nat),
> {
    let n = dec_run(s);
    if 1 <= n <= max_digits && dec_value(s.take(n as int)) <= max_value && !(forbid_zero_prefix
        && n > 1 && s[0] == '0') {
        Some((dec_value(s.take(n as int)), n))
    } else {
        None
    }
}

/// An IPv4 octet group: 1–3 digits, no leading zero, value at most 255.
pub open spec fn octet_at(s: Seq<char>) -> Option<(u8, nat)> {
    match dec_token(s, 3, 255, true) {
        Some((v, n)) => Some((v as u8, n)),
        None => None,
    }
}

/// A port number: 1–5 digits, value at most 65535.
pub open spec fn port_at(s: Seq<char>) -> Option<(u16, nat)> {
    match dec_token(s, 5, 65535, false) {
        Some((v, n)) => Some((v as u16, n)),
        None => None,
    }
}

/// A scope identifier: a decimal 32-bit value.
pub open spec fn scope_at(s: Seq<char>) -> Option<(u32, nat)> {
    match dec_token(s, 10, 0xffff_ffff, false) {
        Some((v, n)) => Some((v as u32, n)),
        None => None,
    }
}

/// An IPv6 group: 1–4 hexadecimal digits, leading zeros allowed.
pub open spec fn hextet_at(s: Seq<char>) -> Option<(u16, nat)> {
    let n = hex_run(s);
    if 1 <= n <= 4 {
        Some(((hex_value(s.take(n as int)) as u16), n))
    } else {
        None
    }
}

/// `count` octet groups joined by `.` at the head of `s`.
pub open spec fn octets_at(s: Seq<char>, count: nat) -> Option<(Seq<u8>, nat)>
    decreases count,
{
    match octet_at(s) {
        None => None,
        Some((v, n)) => {
            if count <= 1 {
                Some((seq![v], n))
            } else if n < s.len() && s[n as int] == '.' {
                match octets_at(s.skip(n as int + 1), (count - 1) as nat) {
                    None => None,
                    Some((vs, m)) => Some((seq![v] + vs, (n + 1 + m) as nat)),
                }
            } else {
                None
            }
        },
    }
}

/// A dotted-quad IPv4 address at the head of `s`.
pub open spec fn ipv4_at(s: Seq<char>) -> Option<(Seq<u8>, nat)> {
    octets_at(s, 4)
}

/// The 16-bit segment formed by two octets.
pub open spec fn seg_of(hi: u8, lo: u8) -> u16 {
    (hi as int * 256 + lo as int) as u16
}

/// Reads up to `limit` IPv6 groups at the head of `s`.  Groups after
/// the first are preceded by `:`.  When at least two group slots remain,
/// a dotted IPv4 address is admitted in place of the final two groups.
/// Yields the groups read, the span, and whether an embedded IPv4
/// address ended the run.  Reading stops — without failing — at the
/// first position where no further group can be read.
pub open spec fn groups_at(s: Seq<char>, first: bool, limit: nat) -> (Seq<u16>, nat, bool)
    decreases limit,
{
    if limit == 0 {
        (Seq::empty(), 0, false)
    } else if !first && !(s.len() > 0 && s[0] == ':') {
        (Seq::empty(), 0, false)
    } else {
        let sep: nat = if first {
            0
        } else {
            1
        };
        let t = s.skip(sep as int);
        match (if limit >= 2 {
            ipv4_at(t)
        } else {
            None
        }) {
            Some((o, n)) => (seq![seg_of(o[0], o[1]), seg_of(o[2], o[3])], (sep + n) as nat, true),
            None => match hextet_at(t) {
                None => (Seq::empty(), 0, false),
                Some((v, n)) => {
                    let rest = groups_at(t.skip(n as int), false, (limit - 1) as nat);
                    (seq![v] + rest.0, (sep + n + rest.1) as nat, rest.2)
                },
            },
        }
    }
}

/// `n` zero segments.
pub open spec fn zero_segs(n: nat) -> Seq<u16> {
    Seq::new(n, |i: int| 0u16)
}

/// An IPv6 address at the head of `s`: either eight groups outright, or
/// fewer groups, a `::` elision, and a tail of groups short enough to
/// leave at least one elided zero group.  An embedded IPv4 address is
/// admitted only in final position.
pub open spec fn ipv6_at(s: Seq<char>) -> Option<(Seq<u16>, nat)> {
    let head = groups_at(s, true, 8);
    if head.0.len() == 8 {
        Some((head.0, head.1))
    } else if head.2 {
        None
    } else {
        let p = head.1 as int;
        if p + 2 <= s.len() && s[p] == ':' && s[p + 1] == ':' {
            let tail = groups_at(s.skip(p + 2), true, (7 - head.0.len()) as nat);
            Some(
                (
                    head.0 + zero_segs((8 - head.0.len() - tail.0.len()) as nat) + tail.0,
                    (head.1 + 2 + tail.1) as nat,
                ),
            )
        } else {
            None
        }
    }
}

/// A whole-string IPv4 address.
pub open spec fn spec_parse_ipv4(s: Seq<char>) -> Option<Seq<u8>> {
    match ipv4_at(s) {
        Some((o, n)) => if n == s.len() {
            Some(o)
        } else {
            None
        },
        None => None,
    }
}

/// A whole-string IPv6 address.
pub open spec fn spec_parse_ipv6(s: Seq<char>) -> Option<Seq<u16>> {
    match ipv6_at(s) {
        Some((g, n)) => if n == s.len() {
            Some(g)
        } else {
            None
        },
        None => None,
    }
}

/// A whole-string IPv4 socket address, `<ipv4>:<port>`.
pub open spec fn spec_parse_sock4(s: Seq<char>) -> Option<(Seq<u8>, u16)> {
    match ipv4_at(s) {
        Some((o, n)) => if n < s.len() && s[n as int] == ':' {
            match port_at(s.skip(n as int + 1)) {
                Some((p, m)) => if n + 1 + m == s.len() {
                    Some((o, p))
                } else {
                    None
                },
                None => None,
            }
        } else {
            None
        },
        None => None,
    }
}

/// The bracket-closing and port part of an IPv6 socket address, from
/// position `q` of `s`: `]:<port>` reaching the end of the input.
pub open spec fn sock6_close(s: Seq<char>, q: int, g: Seq<u16>, sc: u32) -> Option<
    (Seq<u16>, u16, u32),
> {
    if q + 1 < s.len() && s[q] == ']' && s[q + 1] == ':' {
        match port_at(s.skip(q + 2)) {
            Some((p, m)) => if q + 2 + m == s.len() {
                Some((g, p, sc))
            } else {
                None
            },
            None => None,
        }
    } else {
        None
    }
}

/// The optional `%<scope>` part of an IPv6 socket address, from
/// position `q` of `s`, followed by `]:<port>`.
pub open spec fn sock6_after_ip(s: Seq<char>, q: int, g: Seq<u16>) -> Option<(Seq<u16>, u16, u32)> {
    if q < s.len() && s[q] == '%' {
        match scope_at(s.skip(q + 1)) {
            Some((sc, k)) => sock6_close(s, q + 1 + k, g, sc),
            None => None,
        }
    } else {
        sock6_close(s, q, g, 0)
    }
}

/// A whole-string IPv6 socket address, `[<ipv6>]:<port>` or
/// `[<ipv6>%<scope>]:<port>`.
pub open spec fn spec_parse_sock6(s: Seq<char>) -> Option<(Seq<u16>, u16, u32)> {
    if s.len() > 0 && s[0] == '[' {
        match ipv6_at(s.skip(1)) {
            Some((g, n)) => sock6_after_ip(s, 1 + n as int, g),
            None => None,
        }
    } else {
        None
    }
}

/// Powers of ten.
pub open spec fn pow10(k: nat) -> int
    decreases k,
{
    if k == 0 {
        1
    } else {
        10 * pow10((k - 1) as nat)
    }
}

/// Powers of sixteen.
pub open spec fn pow16(k: nat) -> int
    decreases k,
{
    if k == 0 {
        1
    } else {
        16 * pow16((k - 1) as nat)
    }
}

/// Powers of ten are positive and monotone.
pub proof fn lemma_pow10_le(a: nat, b: nat)
    requires
        a <= b,
    ensures
        1 <= pow10(a) <= pow10(b),
    decreases b,
{
    if b == 0 {
    } else if a == b {
        lemma_pow10_le((a - 1) as nat, (b - 1) as nat);
    } else {
        lemma_pow10_le(a, (b - 1) as nat);
    }
}

/// Powers of sixteen are positive and monotone.
pub proof fn lemma_pow16_le(a: nat, b: nat)
    requires
        a <= b,
    ensures
        1 <= pow16(a) <= pow16(b),
    decreases b,
{
    if b == 0 {
    } else if a == b {
        lemma_pow16_le((a - 1) as nat, (b - 1) as nat);
    } else {
        lemma_pow16_le(a, (b - 1) as nat);
    }
}

/// The handful of power values the grammar bounds rest on.
pub proof fn lemma_pow_vals()
    ensures
        pow10(1) == 10,
        pow10(3) == 1000,
        pow10(5) == 100_000,
        pow10(9) == 1_000_000_000,
        pow10(10) == 10_000_000_000,
        pow16(1) == 16,
        pow16(4) == 0x10000,
{
    reveal_with_fuel(pow10, 11);
    reveal_with_fuel(pow16, 5);
}

/// Two successive skips are one.
pub proof fn lemma_skip_skip(s: Seq<char>, i: int, k: int)
    requires
        0 <= i,
        0 <= k,
        i + k <= s.len(),
    ensures
        s.skip(i).skip(k) == s.skip(i + k),
{
    assert(s.skip(i).skip(k) =~= s.skip(i + k));
}

/// The maximal decimal run is exactly the digit prefix length.
pub proof fn lemma_dec_run_is(t: Seq<char>, n: int)
    requires
        0 <= n <= t.len(),
        forall|k: int| 0 <= k < n ==> is_dec(#[trigger] t[k]),
        n == t.len() || !is_dec(t[n]),
    ensures
        dec_run(t) == n,
    decreases n,
{
    if n == 0 {
    } else {
        assert(is_dec(t[0]));
        let u = t.drop_first();
        assert forall|k: int| 0 <= k < n - 1 implies is_dec(#[trigger] u[k]) by {
            assert(u[k] == t[k + 1]);
        }
        if n - 1 < u.len() {
            assert(u[n - 1] == t[n]);
        }
        lemma_dec_run_is(u, n - 1);
    }
}

/// The maximal hexadecimal run is exactly the hex-digit prefix length.
pub proof fn lemma_hex_run_is(t: Seq<char>, n: int)
    requires
        0 <= n <= t.len(),
        forall|k: int| 0 <= k < n ==> is_hex(#[trigger] t[k]),
        n == t.len() || !is_hex(t[n]),
    ensures
        hex_run(t) == n,
    decreases n,
{
    if n == 0 {
    } else {
        assert(is_hex(t[0]));
        let u = t.drop_first();
        assert forall|k: int| 0 <= k < n - 1 implies is_hex(#[trigger] u[k]) by {
            assert(u[k] == t[k + 1]);
        }
        if n - 1 < u.len() {
            assert(u[n - 1] == t[n]);
        }
        lemma_hex_run_is(u, n - 1);
    }
}

/// Appending one digit multiplies the value by the radix and adds it.
pub proof fn lemma_dec_value_step(t: Seq<char>, k: int)
    requires
        0 <= k < t.len(),
    ensures
        dec_value(t.take(k + 1)) == dec_value(t.take(k)) * 10 + dec_v(t[k]),
{
    assert(t.take(k + 1).drop_last() =~= t.take(k));
    assert(t.take(k + 1).last() == t[k]);
}

pub proof fn lemma_hex_value_step(t: Seq<char>, k: int)
    requires
        0 <= k < t.len(),
    ensures
        hex_value(t.take(k + 1)) == hex_value(t.take(k)) * 16 + hex_v(t[k]),
{
    assert(t.take(k + 1).drop_last() =~= t.take(k));
    assert(t.take(k + 1).last() == t[k]);
}

/// A prefix of `n` decimal digits has a value below the `n`-th power of ten.
pub proof fn lemma_dec_value_bound(t: Seq<char>, n: int)
    requires
        0 <= n <= t.len(),
        forall|k: int| 0 <= k < n ==> is_dec(#[trigger] t[k]),
    ensures
        0 <= dec_value(t.take(n)) < pow10(n as nat),
    decreases n,
{
    if n == 0 {
        assert(t.take(0) =~= Seq::<char>::empty());
    } else {
        lemma_dec_value_bound(t, n - 1);
        lemma_dec_value_step(t, n - 1);
        assert(is_dec(t[n - 1]));
    }
}

/// A prefix of `n` hexadecimal digits has a value below the `n`-th power of sixteen.
pub proof fn lemma_hex_value_bound(t: Seq<char>, n: int)
    requires
        0 <= n <= t.len(),
        forall|k: int| 0 <= k < n ==> is_hex(#[trigger] t[k]),
    ensures
        0 <= hex_value(t.take(n)) < pow16(n as nat),
    decreases n,
{
    if n == 0 {
        assert(t.take(0) =~= Seq::<char>::empty());
    } else {
        lemma_hex_value_bound(t, n - 1);
        lemma_hex_value_step(t, n - 1);
        assert(is_hex(t[n - 1]));
    }
}

/// Decimal value of a digit, if `c` is one.
fn char_dec_val(c: char) -> (r: Option<u8>)
    ensures
        r matches Some(v) ==> is_dec(c) && v as int == dec_v(c),
        r is None ==> !is_dec(c),
{
    let x = c as u32;
    if 48 <= x && x <= 57 {
        Some((x - 48) as u8)
    } else {
        None
    }
}

/// Hexadecimal value of a digit, if `c` is one.
fn char_hex_val(c: char) -> (r: Option<u8>)
    ensures
        r matches Some(v) ==> is_hex(c) && v as int == hex_v(c),
        r is None ==> !is_hex(c),
{
    let x = c as u32;
    if 48 <= x && x <= 57 {
        Some((x - 48) as u8)
    } else if 97 <= x && x <= 102 {
        Some((x - 97 + 10) as u8)
    } else if 65 <= x && x <= 70 {
        Some((x - 65 + 10) as u8)
    } else {
        None
    }
}

/// Scans the maximal decimal-digit run from position `i`, returning its end.
fn scan_dec_run(s: &str, i: usize) -> (j: usize)
    requires
        i <= s@.len(),
    ensures
        i <= j <= s@.len(),
        j - i == dec_run(s@.skip(i as int)),
        forall|k: int| i <= k < j ==> is_dec(#[trigger] s@[k]),
{
    let len = s.unicode_len();
    let mut j = i;
    loop
        invariant
            i <= j <= len,
            len == s@.len(),
            forall|k: int| i <= k < j ==> is_dec(#[trigger] s@[k]),
        ensures
            i <= j <= len,
            len == s@.len(),
            forall|k: int| i <= k < j ==> is_dec(#[trigger] s@[k]),
            j == len || !is_dec(s@[j as int]),
        decreases len - j,
    {
        if j >= len {
            break ;
        }
        let c = s.get_char(j);
        match char_dec_val(c) {
            None => {
                break ;
            },
            Some(_) => {
                j += 1;
            },
        }
    }
    proof {
        let t = s@.skip(i as int);
        assert forall|k: int| 0 <= k < (j - i) implies is_dec(#[trigger] t[k]) by {
            assert(t[k] == s@[k + i]);
        }
        if (j - i) < t.len() {
            assert(t[(j - i) as int] == s@[j as int]);
        }
        lemma_dec_run_is(t, j - i);
    }
    j
}

/// Scans the maximal hexadecimal-digit run from position `i`, returning its end.
fn scan_hex_run(s: &str, i: usize) -> (j: usize)
    requires
        i <= s@.len(),
    ensures
        i <= j <= s@.len(),
        j - i == hex_run(s@.skip(i as int)),
        forall|k: int| i <= k < j ==> is_hex(#[trigger] s@[k]),
{
    let len = s.unicode_len();
    let mut j = i;
    loop
        invariant
            i <= j <= len,
            len == s@.len(),
            forall|k: int| i <= k < j ==> is_hex(#[trigger] s@[k]),
        ensures
            i <= j <= len,
            len == s@.len(),
            forall|k: int| i <= k < j ==> is_hex(#[trigger] s@[k]),
            j == len || !is_hex(s@[j as int]),
        decreases len - j,
    {
        if j >= len {
            break ;
        }
        let c = s.get_char(j);
        match char_hex_val(c) {
            None => {
                break ;
            },
            Some(_) => {
                j += 1;
            },
        }
    }
    proof {
        let t = s@.skip(i as int);
        assert forall|k: int| 0 <= k < (j - i) implies is_hex(#[trigger] t[k]) by {
            assert(t[k] == s@[k + i]);
        }
        if (j - i) < t.len() {
            assert(t[(j - i) as int] == s@[j as int]);
        }
        lemma_hex_run_is(t, j - i);
    }
    j
}

/// Reads a decimal field from position `i` as `dec_token` describes.
fn dec_token_scan(s: &str, i: usize, max_digits: usize, max_value: u64, forbid_zero_prefix: bool) -> (r:
    Option<(u64, usize)>)
    requires
        i <= s@.len(),
        1 <= max_digits <= 10,
    ensures
        ({
            let t = dec_token(
                s@.skip(i as int),
                max_digits as nat,
                max_value as int,
                forbid_zero_prefix,
            );
            match r {
                Some((v, j)) => t == Some((v as int, (j - i) as nat)) && i <= j <= s@.len(),
                None => t is None,
            }
        }),
{
    let ghost t = s@.skip(i as int);
    let j_end = scan_dec_run(s, i);
    let n = j_end - i;
    if n < 1 || n > max_digits {
        return None;
    }
    if forbid_zero_prefix && n > 1 {
        let c0 = s.get_char(i);
        proof {
            assert(t[0] == s@[i as int]);
        }
        if c0 == '0' {
            return None;
        }
    }
    let mut acc: u64 = 0;
    let mut k: usize = 0;
    proof {
        assert(t.take(0) =~= Seq::<char>::empty());
        assert forall|q: int| 0 <= q < n implies is_dec(#[trigger] t[q]) by {
            assert(t[q] == s@[q + i]);
        }
    }
    while k < n
        invariant
            0 <= k <= n,
            n <= 10,
            i + n <= s@.len(),
            i + n <= usize::MAX,
            t == s@.skip(i as int),
            n == dec_run(t),
            forall|q: int| 0 <= q < n ==> is_dec(#[trigger] t[q]),
            acc == dec_value(t.take(k as int)),
            0 <= acc < pow10(k as nat),
        decreases n - k,
    {
        let c = s.get_char(i + k);
        proof {
            assert(t[k as int] == s@[i + k]);
        }
        let d = char_dec_val(c).unwrap();
        proof {
            lemma_dec_value_step(t, k as int);
            lemma_dec_value_bound(t, k as int + 1);
            lemma_pow10_le((k + 1) as nat, 10);
            lemma_pow_vals();
        }
        acc = acc * 10 + d as u64;
        k += 1;
    }
    if acc <= max_value {
        Some((acc, i + n))
    } else {
        None
    }
}

/// Reads an IPv6 group of 1–4 hex digits from position `i`.
fn hextet_token(s: &str, i: usize) -> (r: Option<(u16, usize)>)
    requires
        i <= s@.len(),
    ensures
        match r {
            Some((v, j)) => hextet_at(s@.skip(i as int)) == Some((v, (j - i) as nat)) && i <= j
                <= s@.len(),
            None => hextet_at(s@.skip(i as int)) is None,
        },
{
    let ghost t = s@.skip(i as int);
    let j_end = scan_hex_run(s, i);
    let n = j_end - i;
    if n < 1 || n > 4 {
        return None;
    }
    let mut acc: u32 = 0;
    let mut k: usize = 0;
    proof {
        assert(t.take(0) =~= Seq::<char>::empty());
        assert forall|q: int| 0 <= q < n implies is_hex(#[trigger] t[q]) by {
            assert(t[q] == s@[q + i]);
        }
    }
    while k < n
        invariant
            0 <= k <= n,
            n <= 4,
            i + n <= s@.len(),
            i + n <= usize::MAX,
            t == s@.skip(i as int),
            n == hex_run(t),
            forall|q: int| 0 <= q < n ==> is_hex(#[trigger] t[q]),
            acc == hex_value(t.take(k as int)),
            0 <= acc < pow16(k as nat),
        decreases n - k,
    {
        let c = s.get_char(i + k);
        proof {
            assert(t[k as int] == s@[i + k]);
        }
        let d = char_hex_val(c).unwrap();
        proof {
            lemma_hex_value_step(t, k as int);
            lemma_hex_value_bound(t, k as int + 1);
            lemma_pow16_le((k + 1) as nat, 4);
            lemma_pow_vals();
        }
        acc = acc * 16 + d as u32;
        k += 1;
    }
    proof {
        lemma_hex_value_bound(t, n as int);
        lemma_pow16_le(n as nat, 4);
        lemma_pow_vals();
    }
    Some((acc as u16, i + n))
}

/// Reads an IPv4 octet group from position `i`.
fn octet_token(s: &str, i: usize) -> (r: Option<(u8, usize)>)
    requires
        i <= s@.len(),
    ensures
        match r {
            Some((v, j)) => octet_at(s@.skip(i as int)) == Some((v, (j - i) as nat)) && i <= j
                <= s@.len(),
            None => octet_at(s@.skip(i as int)) is None,
        },
{
    match dec_token_scan(s, i, 3, 255, true) {
        Some((v, j)) => Some((v as u8, j)),
        None => None,
    }
}

/// Reads a port number from position `i`.
pub(crate) fn port_token(s: &str, i: usize) -> (r: Option<(u16, usize)>)
    requires
        i <= s@.len(),
    ensures
        match r {
            Some((v, j)) => port_at(s@.skip(i as int)) == Some((v, (j - i) as nat)) && i <= j
                <= s@.len(),
            None => port_at(s@.skip(i as int)) is None,
        },
{
    match dec_token_scan(s, i, 5, 65535, false) {
        Some((v, j)) => Some((v as u16, j)),
        None => None,
    }
}

/// Reads a scope identifier from position `i`.
pub(crate) fn scope_token(s: &str, i: usize) -> (r: Option<(u32, usize)>)
    requires
        i <= s@.len(),
    ensures
        match r {
            Some((v, j)) => scope_at(s@.skip(i as int)) == Some((v, (j - i) as nat)) && i <= j
                <= s@.len(),
            None => scope_at(s@.skip(i as int)) is None,
        },
{
    match dec_token_scan(s, i, 10, 0xffff_ffff, false) {
        Some((v, j)) => Some((v as u32, j)),
        None => None,
    }
}

/// Reads `count` dotted octet groups from position `i`.
pub(crate) fn octets_scan(s: &str, i: usize, count: usize) -> (r: Option<(Vec<u8>, usize)>)
    requires
        i <= s@.len(),
        1 <= count <= 4,
    ensures
        match r {
            Some((vs, j)) => octets_at(s@.skip(i as int), count as nat) == Some(
                (vs@, (j - i) as nat),
            ) && i <= j <= s@.len() && vs@.len() == count,
            None => octets_at(s@.skip(i as int), count as nat) is None,
        },
    decreases count,
{
    let ghost t = s@.skip(i as int);
    match octet_token(s, i) {
        None => None,
        Some((v, j)) => {
            let ghost n = (j - i) as nat;
            if count <= 1 {
                let mut vs: Vec<u8> = Vec::new();
                vs.push(v);
                proof {
                    assert(vs@ =~= seq![v]);
                }
                Some((vs, j))
            } else if j < s.unicode_len() && s.get_char(j) == '.' {
                proof {
                    assert(t[n as int] == s@[j as int]);
                    lemma_skip_skip(s@, i as int, n as int + 1);
                }
                match octets_scan(s, j + 1, count - 1) {
                    None => None,
                    Some((rest, m)) => {
                        let ghost r0 = rest@;
                        let mut vs = rest;
                        vs.insert(0, v);
                        proof {
                            assert(vs@ =~= seq![v] + r0);
                        }
                        Some((vs, m))
                    },
                }
            } else {
                proof {
                    if n < t.len() {
                        assert(t[n as int] == s@[j as int]);
                    }
                }
                None
            }
        },
    }
}

/// Reads up to `limit` IPv6 groups from position `i`, as `groups_at`
/// describes.
#[verifier::rlimit(60)]
#[verifier::spinoff_prover]
fn groups_scan(s: &str, i: usize, first0: bool, limit: usize) -> (r: (Vec<u16>, usize, bool))
    requires
        i <= s@.len(),
        limit <= 8,
    ensures
        ({
            let g = groups_at(s@.skip(i as int), first0, limit as nat);
            &&& r.0@ == g.0
            &&& r.1 as int == i + g.1
            &&& r.2 == g.2
            &&& i <= r.1 <= s@.len()
            &&& r.0@.len() <= limit
        }),
    decreases limit,
{
    let ghost t = s@.skip(i as int);
    if limit == 0 {
        return (Vec::new(), i, false);
    }
    let len = s.unicode_len();
    let mut t0 = i;
    if !first0 {
        if i < len && s.get_char(i) == ':' {
            proof {
                assert(t[0] == s@[i as int]);
            }
            t0 = i + 1;
        } else {
            proof {
                if t.len() > 0 {
                    assert(t[0] == s@[i as int]);
                }
            }
            return (Vec::new(), i, false);
        }
    }
    let ghost sep = (t0 - i) as nat;
    proof {
        lemma_skip_skip(s@, i as int, sep as int);
    }
    if limit >= 2 {
        match octets_scan(s, t0, 4) {
            Some((o, j)) => {
                let s0 = o[0] as u16 * 256 + o[1] as u16;
                let s1 = o[2] as u16 * 256 + o[3] as u16;
                let mut vs: Vec<u16> = Vec::new();
                vs.push(s0);
                vs.push(s1);
                proof {
                    assert(vs@ =~= seq![seg_of(o@[0], o@[1]), seg_of(o@[2], o@[3])]);
                }
                return (vs, j, true);
            },
            None => {},
        }
    }
    match hextet_token(s, t0) {
        None => (Vec::new(), i, false),
        Some((v, j)) => {
            proof {
                lemma_skip_skip(s@, t0 as int, (j - t0) as int);
            }
            let rest = groups_scan(s, j, false, limit - 1);
            let (vs0, q, b) = rest;
            let ghost r0 = vs0@;
            let mut vs = vs0;
            vs.insert(0, v);
            proof {
                assert(vs@ =~= seq![v] + r0);
            }
            (vs, q, b)
        },
    }
}

/// Reads an IPv6 address from position `i`, as `ipv6_at` describes.
pub(crate) fn ipv6_prefix(s: &str, i: usize) -> (r: Option<(Vec<u16>, usize)>)
    requires
        i <= s@.len(),
    ensures
        match r {
            Some((g, j)) => ipv6_at(s@.skip(i as int)) == Some((g@, (j - i) as nat)) && g@.len()
                == 8 && i <= j <= s@.len(),
            None => ipv6_at(s@.skip(i as int)) is None,
        },
{
    let ghost t = s@.skip(i as int);
    let len = s.unicode_len();
    let (head, p, v4) = groups_scan(s, i, true, 8);
    if head.len() == 8 {
        return Some((head, p));
    }
    if v4 {
        return None;
    }
    proof {
        if (p - i) + 2 <= t.len() {
            assert(t[(p - i) as int] == s@[p as int]);
            assert(t[(p - i) as int + 1] == s@[p as int + 1]);
        } else if (p - i) + 1 <= t.len() {
            assert(t[(p - i) as int] == s@[p as int]);
        }
    }
    if p < len && p + 1 < len && s.get_char(p) == ':' && s.get_char(p + 1) == ':' {
        proof {
            lemma_skip_skip(s@, i as int, (p - i) as int + 2);
        }
        let limit = 7 - head.len();
        let (tail, q, _tb) = groups_scan(s, p + 2, true, limit);
        let ghost h0 = head@;
        let ghost t0 = tail@;
        let zeros = 8 - head.len() - tail.len();
        let mut g = head;
        let mut z: usize = 0;
        while z < zeros
            invariant
                z <= zeros,
                g@ == h0 + zero_segs(z as nat),
            decreases zeros - z,
        {
            g.push(0);
            proof {
                assert(h0 + zero_segs(z as nat) + seq![0u16] =~= h0 + zero_segs(
                    (z + 1) as nat,
                ));
            }
            z += 1;
        }
        let mut k: usize = 0;
        let tn = tail.len();
        while k < tn
            invariant
                k <= tn,
                tn == t0.len(),
                tail@ == t0,
                g@ == h0 + zero_segs(zeros as nat) + t0.take(k as int),
            decreases tn - k,
        {
            let x = tail[k];
            g.push(x);
            proof {
                assert(h0 + zero_segs(zeros as nat) + t0.take(k as int) + seq![t0[k as int]]
                    =~= h0 + zero_segs(zeros as nat) + t0.take(k as int + 1));
            }
            k += 1;
        }
        proof {
            assert(t0.take(tn as int) =~= t0);
            assert(g@ =~= h0 + zero_segs(zeros as nat) + t0);
        }
        Some((g, q))
    } else {
        None
    }
}

/// Every character inside the maximal decimal run is a digit.
pub proof fn lemma_dec_run_chars(t: Seq<char>)
    ensures
        dec_run(t) <= t.len(),
        forall|k: int| 0 <= k < dec_run(t) ==> is_dec(#[trigger] t[k]),
    decreases t.len(),
{
    if t.len() > 0 && is_dec(t[0]) {
        let u = t.drop_first();
        lemma_dec_run_chars(u);
        assert forall|k: int| 0 <= k < dec_run(t) implies is_dec(#[trigger] t[k]) by {
            if k > 0 {
                assert(t[k] == u[k - 1]);
            }
        }
    }
}

/// If a dotted-quad address starts here, a `.` stands right after the
/// first octet's digit run.
pub proof fn lemma_ipv4_first_sep(t: Seq<char>)
    ensures
        ipv4_at(t) is Some ==> {
            let n = dec_run(t) as int;
            &&& 1 <= n <= 3
            &&& n < t.len()
            &&& t[n] == '.'
        },
{
    if ipv4_at(t) is Some {
        assert(octet_at(t) is Some);
    }
}

/// Every character a dotted-octet run spans is a digit or a dot.
pub proof fn lemma_octets_chars(s: Seq<char>, count: nat)
    ensures
        octets_at(s, count) matches Some(p) ==> p.1 <= s.len() && forall|k: int|
            0 <= k < p.1 ==> is_dec(#[trigger] s[k]) || s[k] == '.',
    decreases count,
{
    match octet_at(s) {
        None => {},
        Some((v, n)) => {
            lemma_dec_run_chars(s);
            if count <= 1 {
            } else if n < s.len() && s[n as int] == '.' {
                let t = s.skip(n as int + 1);
                lemma_octets_chars(t, (count - 1) as nat);
                match octets_at(t, (count - 1) as nat) {
                    None => {},
                    Some((vs, m)) => {
                        assert forall|k: int|
                            0 <= k < n + 1 + m implies is_dec(#[trigger] s[k]) || s[k]
                            == '.' by {
                            if k > n {
                                assert(s[k] == t[k - n - 1]);
                            }
                        }
                    },
                }
            }
        },
    }
}

/// A string with a colon in it is not a dotted-quad address.
pub proof fn lemma_ipv4_refuses_colon(s: Seq<char>, k: int)
    requires
        0 <= k < s.len(),
        s[k] == ':',
    ensures
        spec_parse_ipv4(s) is None,
{
    lemma_octets_chars(s, 4);
}

} // verus!
