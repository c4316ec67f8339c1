//! Numbers and addresses in text.
use vstd::prelude::*;

verus! {

/// The position of the first `c` at or behind `from`.
pub open spec fn find_char(s: Seq<char>, c: char, from: int) -> Option<int>
    decreases s.len() - from,
{
    if from < 0 || from >= s.len() {
        None
    } else if s[from] == c {
        Some(from)
    } else {
        find_char(s, c, from + 1)
    }
}

/// What a digit counts in the given base; nothing if it is no digit of that base.
pub open spec fn digit_value(c: char, base: int) -> Option<int> {
    let v = if '0' <= c <= '9' {
        c as int - '0' as int
    } else if 'a' <= c <= 'f' {
        c as int - 'a' as int + 10
    } else if 'A' <= c <= 'F' {
        c as int - 'A' as int + 10
    } else {
        16
    };
    if v < base {
        Some(v)
    } else {
        None
    }
}

/// The number that the digits `s` stand for in the given base; 0 for none. Nothing if one of them is
/// no digit.
pub open spec fn digits_value(s: Seq<char>, base: int) -> Option<int>
    decreases s.len(),
{
    if s.len() == 0 {
        Some(0)
    } else {
        match (digits_value(s.drop_last(), base), digit_value(s.last(), base)) {
            (Some(v), Some(d)) => Some(v * base + d),
            _ => None,
        }
    }
}

/// The number that a decimal text stands for: at least one digit, with an optional plus sign in
/// front, and no more than `max`.
pub open spec fn decimal(s: Seq<char>, max: int) -> Option<int> {
    let body = if s.len() > 0 && s[0] == '+' {
        s.skip(1)
    } else {
        s
    };
    match digits_value(body, 10) {
        Some(v) if body.len() > 0 && v <= max => Some(v),
        _ => None,
    }
}

/// One part of a dotted address: one to three digits without a leading zero, at most 255.
pub open spec fn octet(s: Seq<char>) -> Option<int> {
    match digits_value(s, 10) {
        Some(v) if 1 <= s.len() <= 3 && (s.len() == 1 || s[0] != '0') && v <= 255 => Some(v),
        _ => None,
    }
}

/// The IPv4 address that the text stands for: four parts with dots between them.
pub open spec fn ipv4(s: Seq<char>) -> Option<u32> {
    match find_char(s, '.', 0) {
        None => None,
        Some(p) => match find_char(s, '.', p + 1) {
            None => None,
            Some(q) => match find_char(s, '.', q + 1) {
                None => None,
                Some(r) => match (
                    octet(s.subrange(0, p)),
                    octet(s.subrange(p + 1, q)),
                    octet(s.subrange(q + 1, r)),
                    octet(s.subrange(r + 1, s.len() as int)),
                ) {
                    (Some(a), Some(b), Some(c), Some(d)) => Some(
                        (a * 0x1000000 + b * 0x10000 + c * 0x100 + d) as u32,
                    ),
                    _ => None,
                },
            },
        },
    }
}

/// One group of an IPv6 address: one to four hexadecimal digits.
pub open spec fn group(s: Seq<char>) -> Option<int> {
    match digits_value(s, 16) {
        Some(v) if 1 <= s.len() <= 4 => Some(v),
        _ => None,
    }
}

/// The 16-bit groups from `from` on, with colons between them. The last part may be an IPv4 address,
/// which makes two groups, if `v4` allows it.
pub open spec fn groups(s: Seq<char>, from: int, v4: bool) -> Option<Seq<int>>
    decreases s.len() - from,
{
    if from < 0 || from > s.len() {
        None
    } else {
        match find_char(s, ':', from) {
            Some(p) if from <= p < s.len() => match (
                group(s.subrange(from, p)),
                groups(s, p + 1, v4),
            ) {
                (Some(g), Some(rest)) => Some(seq![g] + rest),
                _ => None,
            },
            _ => {
                let last = s.subrange(from, s.len() as int);
                match (group(last), ipv4(last)) {
                    (Some(g), _) => Some(seq![g]),
                    (None, Some(a)) if v4 => Some(
                        seq![a as int / 0x10000, a as int % 0x10000],
                    ),
                    _ => None,
                }
            },
        }
    }
}

/// The groups of a text that may be empty.
pub open spec fn groups_or_none(s: Seq<char>, v4: bool) -> Option<Seq<int>> {
    if s.len() == 0 {
        Some(Seq::empty())
    } else {
        groups(s, 0, v4)
    }
}

/// The number whose 16-bit digits are `gs`.
pub open spec fn joined(gs: Seq<int>) -> int
    decreases gs.len(),
{
    if gs.len() == 0 {
        0
    } else {
        joined(gs.drop_last()) * 0x10000 + gs.last()
    }
}

/// `n` zero groups.
pub open spec fn zeros(n: int) -> Seq<int> {
    Seq::new(n as nat, |k: int| 0int)
}

/// The position of the first two colons in a row at or behind `from`.
pub open spec fn find_gap(s: Seq<char>, from: int) -> Option<int>
    decreases s.len() - from,
{
    if from < 0 || from + 1 >= s.len() {
        None
    } else if s[from] == ':' && s[from + 1] == ':' {
        Some(from)
    } else {
        find_gap(s, from + 1)
    }
}

/// The eight groups of an IPv6 address. Two colons in a row stand for one or more zero groups.
pub open spec fn ipv6_groups(s: Seq<char>) -> Option<Seq<int>> {
    match find_gap(s, 0) {
        None => match groups_or_none(s, true) {
            Some(gs) if gs.len() == 8 => Some(gs),
            _ => None,
        },
        Some(p) => match (
            groups_or_none(s.subrange(0, p), false),
            groups_or_none(s.subrange(p + 2, s.len() as int), true),
        ) {
            (Some(h), Some(t)) if h.len() + t.len() <= 7 => Some(
                h + zeros(8 - h.len() - t.len()) + t,
            ),
            _ => None,
        },
    }
}

/// The IPv6 address that the text stands for.
pub open spec fn ipv6(s: Seq<char>) -> Option<u128> {
    match ipv6_groups(s) {
        Some(gs) => Some(joined(gs) as u128),
        None => None,
    }
}

/// The decimal digits of `n`.
pub open spec fn decimal_text(n: nat) -> Seq<char>
    decreases n,
{
    let d = (('0' as int) + n % 10) as char;
    if n < 10 {
        seq![d]
    } else {
        decimal_text(n / 10).push(d)
    }
}

/// The small letter of a capital one; any other character as it is.
pub open spec fn lower(c: char) -> char {
    if 'A' <= c <= 'Z' {
        (c as int - 'A' as int + 'a' as int) as char
    } else {
        c
    }
}

/// The text with small letters for capital ones.
pub open spec fn lowered(s: Seq<char>) -> Seq<char> {
    Seq::new(s.len(), |k: int| lower(s[k]))
}

/// The text with blanks behind it up to the width `w`.
pub open spec fn padded(s: Seq<char>, w: nat) -> Seq<char> {
    if s.len() >= w {
        s
    } else {
        s + Seq::new((w - s.len()) as nat, |k: int| ' ')
    }
}

/// The small letter within ASCII of a character that has one; any other character as it is. Besides
/// the capital letters that is the Kelvin sign, whose small form is `k`.
pub open spec fn fold(c: char) -> char {
    if c == '\u{212a}' {
        'k'
    } else {
        lower(c)
    }
}

/// The text with small letters where ASCII has them.
pub open spec fn folded(s: Seq<char>) -> Seq<char> {
    Seq::new(s.len(), |k: int| fold(s[k]))
}

/// The characters of the text.
pub fn chars_of(text: &str) -> (r: Vec<char>)
    ensures
        r@ == text@,
{
    let n: usize = text.unicode_len();
    let mut v: Vec<char> = Vec::new();
    let mut i: usize = 0;
    while i < n
        invariant
            i <= n,
            n == text@.len(),
            v@ == text@.take(i as int),
        decreases n - i,
    {
        v.push(text.get_char(i));
        i = i + 1;
        assert(v@ =~= text@.take(i as int));
    }
    assert(v@ =~= text@);
    v
}

/// The position of the first `c` at or behind `from`.
pub fn position_of(s: &Vec<char>, c: char, from: usize) -> (r: Option<usize>)
    ensures
        match (r, find_char(s@, c, from as int)) {
            (Some(i), Some(j)) => i == j && from <= i < s@.len(),
            (None, None) => true,
            _ => false,
        },
{
    let mut i: usize = from;
    while i < s.len()
        invariant
            from <= i,
            find_char(s@, c, from as int) == find_char(s@, c, i as int),
        decreases s.len() - i,
    {
        if s[i] == c {
            return Some(i);
        }
        i = i + 1;
    }
    None
}

/// What a digit counts in the given base.
fn digit_of(c: char, base: u32) -> (r: Option<u32>)
    ensures
        match (r, digit_value(c, base as int)) {
            (Some(v), Some(w)) => v == w,
            (None, None) => true,
            _ => false,
        },
{
    let v: u32 = if '0' <= c && c <= '9' {
        c as u32 - '0' as u32
    } else if 'a' <= c && c <= 'f' {
        c as u32 - 'a' as u32 + 10
    } else if 'A' <= c && c <= 'F' {
        c as u32 - 'A' as u32 + 10
    } else {
        16
    };
    if v < base {
        Some(v)
    } else {
        None
    }
}

/// A value that got too large stays too large.
proof fn lemma_digits_grow(s: Seq<char>, base: int, n: int)
    requires
        base >= 1,
        0 <= n <= s.len(),
        digits_value(s.take(n), base) is None || digits_value(s.take(n), base)->0 >= 0,
    ensures
        digits_value(s, base) is None || (digits_value(s.take(n), base) is Some && digits_value(
            s,
            base,
        )->0 >= digits_value(s.take(n), base)->0),
    decreases s.len() - n,
{
    if n < s.len() {
        assert(s.take(n + 1).drop_last() =~= s.take(n));
        if digits_value(s.take(n + 1), base) is Some {
            let v = digits_value(s.take(n), base)->0;
            let d = digit_value(s[n], base)->0;
            assert(v * base + d >= v) by (nonlinear_arith)
                requires
                    base >= 1,
                    v >= 0,
                    d >= 0,
            ;
        }
        lemma_digits_grow(s, base, n + 1);
    } else {
        assert(s.take(n) =~= s);
    }
}

/// Reads the digits between `from` and `to`. Nothing if one is no digit or the value exceeds `max`.
fn read_digits(s: &Vec<char>, from: usize, to: usize, base: u32, max: u32) -> (r: Option<u32>)
    requires
        from <= to <= s@.len(),
        1 <= base <= 16,
    ensures
        match (r, digits_value(s@.subrange(from as int, to as int), base as int)) {
            (Some(v), Some(w)) => v == w && w <= max,
            (None, Some(w)) => w > max,
            (None, None) => true,
            _ => false,
        },
{
    let ghost t = s@.subrange(from as int, to as int);
    let mut v: u64 = 0;
    let mut i: usize = from;
    assert(t.take(0) =~= Seq::empty());
    while i < to
        invariant
            from <= i <= to <= s@.len(),
            1 <= base <= 16,
            t == s@.subrange(from as int, to as int),
            digits_value(t.take(i - from), base as int) == Some(v as int),
            v <= max,
        decreases to - i,
    {
        let ghost n = i - from;
        assert(t.take(n + 1).drop_last() =~= t.take(n));
        assert(t.take(n + 1).last() == s@[i as int]);
        match digit_of(s[i], base) {
            None => {
                proof {
                    lemma_digits_grow(t, base as int, n + 1);
                }
                return None;
            },
            Some(d) => {
                assert(0 <= v * base <= 0xffffffff * 16) by (nonlinear_arith)
                    requires
                        0 <= v <= 0xffffffff,
                        1 <= base <= 16,
                ;
                v = v * base as u64 + d as u64;
                if v > max as u64 {
                    proof {
                        lemma_digits_grow(t, base as int, n + 1);
                    }
                    return None;
                }
            },
        }
        i = i + 1;
    }
    assert(t.take(i - from) =~= t);
    Some(v as u32)
}

/// Reads a decimal number between `from` and `to`.
pub fn parse_decimal(s: &Vec<char>, from: usize, to: usize, max: u32) -> (r: Option<u32>)
    requires
        from <= to <= s@.len(),
    ensures
        match (r, decimal(s@.subrange(from as int, to as int), max as int)) {
            (Some(v), Some(w)) => v == w,
            (None, None) => true,
            _ => false,
        },
{
    let ghost t = s@.subrange(from as int, to as int);
    if from < to && s[from] == '+' {
        assert(t.skip(1) =~= s@.subrange(from + 1, to as int));
        if from + 1 == to {
            return None;
        }
        read_digits(s, from + 1, to, 10, max)
    } else {
        if from == to {
            return None;
        }
        read_digits(s, from, to, 10, max)
    }
}

/// Reads one part of a dotted address.
fn parse_octet(s: &Vec<char>, from: usize, to: usize) -> (r: Option<u32>)
    requires
        from <= to <= s@.len(),
    ensures
        match (r, octet(s@.subrange(from as int, to as int))) {
            (Some(v), Some(w)) => v == w && w <= 255,
            (None, None) => true,
            _ => false,
        },
{
    if from == to || to - from > 3 {
        return None;
    }
    if to - from > 1 && s[from] == '0' {
        return None;
    }
    read_digits(s, from, to, 10, 255)
}

/// A search that begins later finds the same character, seen from the shorter text.
proof fn lemma_find_in_part(s: Seq<char>, c: char, from: int, at: int)
    requires
        0 <= from <= at <= s.len(),
    ensures
        match (
            find_char(s, c, at),
            find_char(s.subrange(from, s.len() as int), c, at - from),
        ) {
            (Some(i), Some(j)) => i == from + j && at <= i < s.len(),
            (None, None) => true,
            _ => false,
        },
    decreases s.len() - at,
{
    if at < s.len() && s[at] != c {
        lemma_find_in_part(s, c, from, at + 1);
    }
}

/// Puts four octets together.
fn quad(a: Option<u32>, b: Option<u32>, c: Option<u32>, d: Option<u32>) -> (r: Option<u32>)
    requires
        a matches Some(x) ==> x <= 255,
        b matches Some(x) ==> x <= 255,
        c matches Some(x) ==> x <= 255,
        d matches Some(x) ==> x <= 255,
    ensures
        r == (match (a, b, c, d) {
            (Some(a), Some(b), Some(c), Some(d)) => Some(
                (a * 0x1000000 + b * 0x10000 + c * 0x100 + d) as u32,
            ),
            _ => None::<u32>,
        }),
{
    match (a, b, c, d) {
        (Some(a), Some(b), Some(c), Some(d)) => Some(
            a * 0x1000000 + b * 0x10000 + c * 0x100 + d,
        ),
        _ => None,
    }
}

/// Four octets put together; nothing if one is missing.
spec fn joined_octets(a: Option<int>, b: Option<int>, c: Option<int>, d: Option<int>) -> Option<
    u32,
> {
    match (a, b, c, d) {
        (Some(a), Some(b), Some(c), Some(d)) => Some(
            (a * 0x1000000 + b * 0x10000 + c * 0x100 + d) as u32,
        ),
        _ => None,
    }
}

/// Reads the four octets between the dots at `p`, `q` and `r`.
fn read_quad(s: &Vec<char>, from: usize, p: usize, q: usize, r: usize) -> (x: Option<u32>)
    requires
        from <= p < q < r < s@.len(),
    ensures
        x == joined_octets(
            octet(s@.subrange(from as int, p as int)),
            octet(s@.subrange(p + 1, q as int)),
            octet(s@.subrange(q + 1, r as int)),
            octet(s@.subrange(r + 1, s@.len() as int)),
        ),
{
    let _total: usize = s.len();
    let a = parse_octet(s, from, p);
    let b = parse_octet(s, p + 1, q);
    let c = parse_octet(s, q + 1, r);
    let d = parse_octet(s, r + 1, s.len());
    quad(a, b, c, d)
}

proof fn lemma_ipv4_parts(t: Seq<char>, i: int, j: int, k: int)
    requires
        find_char(t, '.', 0) == Some(i),
        find_char(t, '.', i + 1) == Some(j),
        find_char(t, '.', j + 1) == Some(k),
    ensures
        ipv4(t) == joined_octets(
            octet(t.subrange(0, i)),
            octet(t.subrange(i + 1, j)),
            octet(t.subrange(j + 1, k)),
            octet(t.subrange(k + 1, t.len() as int)),
        ),
{
}

/// Reads an IPv4 address from `from` on.
fn read_ipv4(s: &Vec<char>, from: usize) -> (r: Option<u32>)
    requires
        from <= s@.len(),
    ensures
        r == ipv4(s@.subrange(from as int, s@.len() as int)),
{
    let ghost t = s@.subrange(from as int, s@.len() as int);
    let _total: usize = s.len();
    proof {
        lemma_find_in_part(s@, '.', from as int, from as int);
    }
    let p: usize = match position_of(s, '.', from) {
        None => {
            return None;
        },
        Some(p) => p,
    };
    proof {
        lemma_find_in_part(s@, '.', from as int, p + 1);
    }
    let q: usize = match position_of(s, '.', p + 1) {
        None => {
            return None;
        },
        Some(q) => q,
    };
    proof {
        lemma_find_in_part(s@, '.', from as int, q + 1);
    }
    let r: usize = match position_of(s, '.', q + 1) {
        None => {
            return None;
        },
        Some(r) => r,
    };
    let x = read_quad(s, from, p, q, r);
    proof {
        lemma_ipv4_parts(t, p - from, q - from, r - from);
        assert(t.subrange(0, p - from) =~= s@.subrange(from as int, p as int));
        assert(t.subrange(p - from + 1, q - from) =~= s@.subrange(p + 1, q as int));
        assert(t.subrange(q - from + 1, r - from) =~= s@.subrange(q + 1, r as int));
        assert(t.subrange(r - from + 1, t.len() as int) =~= s@.subrange(r + 1, s@.len() as int));
    }
    x
}

/// Reads an IPv4 address.
pub fn parse_ipv4(text: &str) -> (r: Option<u32>)
    ensures
        r == ipv4(text@),
{
    let s = chars_of(text);
    assert(s@.subrange(0, s@.len() as int) =~= s@);
    read_ipv4(&s, 0)
}

/// Reads one group between `from` and `to`.
fn parse_group(s: &Vec<char>, from: usize, to: usize) -> (r: Option<u32>)
    requires
        from <= to <= s@.len(),
    ensures
        match (r, group(s@.subrange(from as int, to as int))) {
            (Some(v), Some(w)) => v == w && w <= 0xffff,
            (None, None) => true,
            _ => false,
        },
{
    if from == to || to - from > 4 {
        return None;
    }
    proof {
        lemma_four_digits(s@.subrange(from as int, to as int));
    }
    read_digits(s, from, to, 16, 0xffff)
}

/// Four hexadecimal digits fit into 16 bits.
proof fn lemma_four_digits(s: Seq<char>)
    requires
        s.len() <= 4,
    ensures
        digits_value(s, 16) matches Some(v) ==> 0 <= v <= 0xffff,
{
    reveal_with_fuel(digits_value, 5);
}

/// The values of the groups.
pub open spec fn ints(v: Seq<u32>) -> Seq<int> {
    Seq::new(v.len(), |k: int| v[k] as int)
}

/// Whether all groups have 16 bits.
spec fn all_short(v: Seq<u32>) -> bool {
    forall|k: int| 0 <= k < v.len() ==> (#[trigger] v[k]) <= 0xffff
}

/// A search does not look behind itself.
proof fn lemma_find_bounds(s: Seq<char>, c: char, from: int)
    ensures
        find_char(s, c, from) matches Some(p) ==> from <= p < s.len(),
    decreases s.len() - from,
{
    if 0 <= from < s.len() && s[from] != c {
        lemma_find_bounds(s, c, from + 1);
    }
}

/// Reads groups with colons between them.
fn read_groups(s: &Vec<char>, v4: bool) -> (r: Option<Vec<u32>>)
    ensures
        match (r, groups_or_none(s@, v4)) {
            (Some(v), Some(gs)) => ints(v@) == gs && all_short(v@),
            (None, None) => true,
            _ => false,
        },
{
    let mut v: Vec<u32> = Vec::new();
    assert(ints(v@) =~= Seq::empty());
    if s.len() == 0 {
        return Some(v);
    }
    let mut from: usize = 0;
    let ghost all = groups(s@, 0, v4);
    assert(all matches Some(gs) ==> ints(v@) + gs =~= gs);
    loop
        invariant
            from <= s@.len(),
            s@.len() > 0,
            all == groups(s@, 0, v4),
            all_short(v@),
            match (all, groups(s@, from as int, v4)) {
                (Some(gs), Some(rest)) => gs == ints(v@) + rest,
                (None, None) => true,
                _ => false,
            },
        decreases s@.len() - from,
    {
        let _total: usize = s.len();
        proof {
            lemma_find_bounds(s@, ':', from as int);
        }
        match position_of(s, ':', from) {
            Some(p) => {
                match parse_group(s, from, p) {
                    None => {
                        return None;
                    },
                    Some(g) => {
                        let ghost before = ints(v@);
                        v.push(g);
                        assert(ints(v@) =~= before.push(g as int));
                        from = p + 1;
                        proof {
                            match groups(s@, from as int, v4) {
                                Some(rest) => {
                                    assert(before + (seq![g as int] + rest) =~= ints(v@) + rest);
                                },
                                None => {},
                            }
                        }
                    },
                }
            },
            None => {
                let ghost before = ints(v@);
                match parse_group(s, from, s.len()) {
                    Some(g) => {
                        v.push(g);
                        assert(ints(v@) =~= before + seq![g as int]);
                        return Some(v);
                    },
                    None => {
                        if !v4 {
                            return None;
                        }
                        match read_ipv4(s, from) {
                            None => {
                                return None;
                            },
                            Some(a) => {
                                v.push(a / 0x10000);
                                v.push(a % 0x10000);
                                assert(ints(v@) =~= before + seq![
                                    a as int / 0x10000,
                                    a as int % 0x10000,
                                ]);
                                return Some(v);
                            },
                        }
                    },
                }
            },
        }
    }
}

/// The number whose 16-bit digits are `v`.
fn join(v: &Vec<u32>) -> (r: u128)
    requires
        v@.len() <= 8,
        all_short(v@),
    ensures
        r == joined(ints(v@)),
{
    let ghost gs = ints(v@);
    let mut x: u128 = 0;
    let mut i: usize = 0;
    assert(gs.take(0) =~= Seq::empty());
    proof {
        vstd::arithmetic::power2::lemma2_to64();
    }
    while i < v.len()
        invariant
            i <= v@.len() <= 8,
            gs == ints(v@),
            all_short(v@),
            x == joined(gs.take(i as int)),
            x < vstd::arithmetic::power2::pow2((16 * i) as nat),
        decreases v.len() - i,
    {
        assert(gs.take(i + 1).drop_last() =~= gs.take(i as int));
        proof {
            vstd::arithmetic::power2::lemma_pow2_adds((16 * i) as nat, 16);
            vstd::arithmetic::power2::lemma2_to64();
            vstd::arithmetic::power2::lemma_pow2_adds(64, 64);
            if i < 7 {
                vstd::arithmetic::power2::lemma_pow2_strictly_increases(
                    (16 * i + 16) as nat,
                    128,
                );
            }
            let a = vstd::arithmetic::power2::pow2((16 * i) as nat) as int;
            assert(x * 0x10000 + 0xffff < a * 0x10000) by (nonlinear_arith)
                requires
                    x + 1 <= a,
            ;
        }
        x = x * 0x10000 + v[i] as u128;
        i = i + 1;
    }
    assert(gs.take(i as int) =~= gs);
    x
}

/// The position of the first two colons in a row.
fn gap_of(s: &Vec<char>) -> (r: Option<usize>)
    ensures
        match (r, find_gap(s@, 0)) {
            (Some(i), Some(j)) => i == j && i + 2 <= s@.len(),
            (None, None) => true,
            _ => false,
        },
{
    let mut i: usize = 0;
    if s.len() < 2 {
        return None;
    }
    while i < s.len() - 1
        invariant
            s@.len() >= 2,
            find_gap(s@, 0) == find_gap(s@, i as int),
        decreases s.len() - i,
    {
        if s[i] == ':' && s[i + 1] == ':' {
            return Some(i);
        }
        i = i + 1;
    }
    None
}

/// The characters between `from` and `to`.
fn part(s: &Vec<char>, from: usize, to: usize) -> (r: Vec<char>)
    requires
        from <= to <= s@.len(),
    ensures
        r@ == s@.subrange(from as int, to as int),
{
    let mut v: Vec<char> = Vec::new();
    let mut i: usize = from;
    while i < to
        invariant
            from <= i <= to <= s@.len(),
            v@ == s@.subrange(from as int, i as int),
        decreases to - i,
    {
        v.push(s[i]);
        i = i + 1;
        assert(v@ =~= s@.subrange(from as int, i as int));
    }
    v
}

/// Reads an IPv6 address.
pub fn parse_ipv6(text: &str) -> (r: Option<u128>)
    ensures
        r == ipv6(text@),
{
    let s = chars_of(text);
    match gap_of(&s) {
        None => match read_groups(&s, true) {
            Some(v) => {
                if v.len() == 8 {
                    Some(join(&v))
                } else {
                    None
                }
            },
            None => None,
        },
        Some(p) => {
            let h = part(&s, 0, p);
            let t = part(&s, p + 2, s.len());
            match (read_groups(&h, false), read_groups(&t, true)) {
                (Some(a), Some(b)) => {
                    if a.len() > 7 || b.len() > 7 || a.len() + b.len() > 7 {
                        return None;
                    }
                    let ghost want = ints(a@) + zeros(8 - a@.len() - b@.len()) + ints(b@);
                    let ghost head = a@;
                    let ghost tail = b@;
                    let mut v = a;
                    let mut rest = b;
                    while v.len() + rest.len() < 8
                        invariant
                            rest@ == tail,
                            head.len() <= v@.len(),
                            v@.len() + rest@.len() <= 8,
                            all_short(v@),
                            ints(v@) == ints(head) + zeros(v@.len() - head.len()),
                        decreases 8 - v.len(),
                    {
                        let ghost before = ints(v@);
                        v.push(0);
                        assert(ints(v@) =~= before.push(0));
                        assert(ints(v@) =~= ints(head) + zeros(v@.len() - head.len()));
                    }
                    v.append(&mut rest);
                    assert(ints(v@) =~= want);
                    Some(join(&v))
                },
                _ => None,
            }
        },
    }
}

/// The text of one decimal digit.
fn digit_text(d: u32) -> (r: &'static str)
    requires
        d < 10,
    ensures
        r@ == seq![(('0' as int) + d) as char],
{
    proof {
        reveal_strlit("0");
        reveal_strlit("1");
        reveal_strlit("2");
        reveal_strlit("3");
        reveal_strlit("4");
        reveal_strlit("5");
        reveal_strlit("6");
        reveal_strlit("7");
        reveal_strlit("8");
        reveal_strlit("9");
    }
    let r = if d == 0 {
        "0"
    } else if d == 1 {
        "1"
    } else if d == 2 {
        "2"
    } else if d == 3 {
        "3"
    } else if d == 4 {
        "4"
    } else if d == 5 {
        "5"
    } else if d == 6 {
        "6"
    } else if d == 7 {
        "7"
    } else if d == 8 {
        "8"
    } else {
        "9"
    };
    assert(r@ =~= seq![(('0' as int) + d) as char]);
    r
}

/// Appends the decimal digits of `n`.
pub fn append_decimal(text: &mut String, n: u32)
    ensures
        final(text)@ == old(text)@ + decimal_text(n as nat),
    decreases n,
{
    let ghost start = text@;
    if n >= 10 {
        append_decimal(text, n / 10);
    }
    text.append(digit_text(n % 10));
    assert(text@ =~= start + decimal_text(n as nat));
}

/// The small letter of a capital one.
fn lower_of(c: char) -> (r: char)
    ensures
        r == lower(c),
{
    if 'A' <= c && c <= 'Z' {
        let n: u32 = c as u32 - 'A' as u32 + 'a' as u32;
        (n as u8) as char
    } else {
        c
    }
}

/// Whether the text, with small letters for capital ones, is `word`.
pub fn reads_as(text: &str, word: &str) -> (r: bool)
    ensures
        r == (lowered(text@) == word@),
{
    let n: usize = text.unicode_len();
    if n != word.unicode_len() {
        return false;
    }
    let mut i: usize = 0;
    while i < n
        invariant
            i <= n,
            n == text@.len(),
            n == word@.len(),
            forall|k: int| 0 <= k < i ==> lower(#[trigger] text@[k]) == word@[k],
        decreases n - i,
    {
        if lower_of(text.get_char(i)) != word.get_char(i) {
            assert(lowered(text@)[i as int] != word@[i as int]);
            return false;
        }
        i = i + 1;
    }
    assert(lowered(text@) =~= word@);
    true
}

/// Whether the text, with small letters where ASCII has them, is `word`.
pub fn folds_to(text: &str, word: &str) -> (r: bool)
    ensures
        r == (folded(text@) == word@),
{
    let n: usize = text.unicode_len();
    if n != word.unicode_len() {
        return false;
    }
    let mut i: usize = 0;
    while i < n
        invariant
            i <= n,
            n == text@.len(),
            n == word@.len(),
            forall|k: int| 0 <= k < i ==> fold(#[trigger] text@[k]) == word@[k],
        decreases n - i,
    {
        let c = text.get_char(i);
        let d = if c == '\u{212a}' {
            'k'
        } else {
            lower_of(c)
        };
        if d != word.get_char(i) {
            assert(folded(text@)[i as int] != word@[i as int]);
            return false;
        }
        i = i + 1;
    }
    assert(folded(text@) =~= word@);
    true
}

/// Whether `a` comes before `b` or is the same, character by character.
pub open spec fn text_le(a: Seq<char>, b: Seq<char>, from: int) -> bool
    decreases a.len() - from,
{
    if from < 0 || from >= a.len() {
        true
    } else if from >= b.len() {
        false
    } else if a[from] != b[from] {
        a[from] < b[from]
    } else {
        text_le(a, b, from + 1)
    }
}

/// Whether `a` comes before `b` or is the same.
pub fn not_behind(a: &str, b: &str) -> (r: bool)
    ensures
        r == text_le(a@, b@, 0),
{
    let n: usize = a.unicode_len();
    let m: usize = b.unicode_len();
    let mut i: usize = 0;
    while i < n
        invariant
            i <= n,
            n == a@.len(),
            m == b@.len(),
            text_le(a@, b@, 0) == text_le(a@, b@, i as int),
        decreases n - i,
    {
        if i >= m {
            return false;
        }
        let x = a.get_char(i);
        let y = b.get_char(i);
        if x != y {
            return x < y;
        }
        i = i + 1;
    }
    true
}

/// An address text in front of a slash and a decimal number behind it.
pub open spec fn cidr(s: Seq<char>) -> Option<(Seq<char>, u8)> {
    match find_char(s, '/', 0) {
        None => None,
        Some(p) => match decimal(s.subrange(p + 1, s.len() as int), 255) {
            None => None,
            Some(n) => Some((s.subrange(0, p), n as u8)),
        },
    }
}

/// Splits a text at its first slash into an address text and a number.
pub fn split_cidr(text: &str) -> (r: Option<(&str, u8)>)
    ensures
        match (r, cidr(text@)) {
            (Some((a, n)), Some((b, m))) => a@ == b && n == m,
            (None, None) => true,
            _ => false,
        },
{
    let s = chars_of(text);
    match position_of(&s, '/', 0) {
        None => None,
        Some(p) => match parse_decimal(&s, p + 1, s.len(), 255) {
            None => None,
            Some(n) => Some((text.substring_char(0, p), n as u8)),
        },
    }
}

/// What a decimal text stands for can be read back.
pub proof fn lemma_decimal_roundtrip(n: nat)
    ensures
        digits_value(decimal_text(n), 10) == Some(n as int),
        decimal_text(n).len() > 0,
        decimal_text(n)[0] != '+',
    decreases n,
{
    let t = decimal_text(n);
    let d = (('0' as int) + n % 10) as char;
    assert(d as int == 48 + n % 10);
    assert(digit_value(d, 10) == Some((n % 10) as int));
    assert(t.last() == d);
    assert(digits_value(Seq::empty(), 10) == Some(0int));
    if n >= 10 {
        lemma_decimal_roundtrip(n / 10);
        assert(t.drop_last() =~= decimal_text(n / 10));
        assert(t[0] == decimal_text(n / 10)[0]);
    } else {
        assert(t.drop_last() =~= Seq::empty());
    }
}

/// The dotted text of an IPv4 address.
pub open spec fn ipv4_text(a: u32) -> Seq<char> {
    decimal_text((a / 0x1000000) as nat) + "."@ + decimal_text((a / 0x10000 % 0x100) as nat)
        + "."@ + decimal_text((a / 0x100 % 0x100) as nat) + "."@ + decimal_text(
        (a % 0x100) as nat,
    )
}

/// Appends the decimal digits of `n`.
pub fn append_number(text: &mut String, n: u64)
    ensures
        final(text)@ == old(text)@ + decimal_text(n as nat),
    decreases n,
{
    let ghost start = text@;
    if n >= 10 {
        append_number(text, n / 10);
    }
    text.append(digit_text((n % 10) as u32));
    assert(text@ =~= start + decimal_text(n as nat));
}

/// Appends `s` and blanks behind it up to the width `w`.
pub fn append_padded(text: &mut String, s: &str, w: usize)
    ensures
        final(text)@ == old(text)@ + padded(s@, w as nat),
{
    let ghost start = text@;
    let n: usize = s.unicode_len();
    text.append(s);
    let mut i: usize = n;
    while i < w
        invariant
            n <= i,
            n == s@.len(),
            i <= w || i == n,
            text@ =~= start + s@ + Seq::new((i - n) as nat, |k: int| ' '),
        decreases w - i,
    {
        proof {
            reveal_strlit(" ");
        }
        text.append(" ");
        i = i + 1;
    }
    assert(text@ =~= start + padded(s@, w as nat));
}

/// Appends the dotted text of an IPv4 address.
pub fn append_ipv4(text: &mut String, a: u32)
    ensures
        final(text)@ == old(text)@ + ipv4_text(a),
{
    let ghost start = text@;
    append_decimal(text, a / 0x1000000);
    text.append(".");
    append_decimal(text, a / 0x10000 % 0x100);
    text.append(".");
    append_decimal(text, a / 0x100 % 0x100);
    text.append(".");
    append_decimal(text, a % 0x100);
    assert(text@ =~= start + ipv4_text(a));
}

/// The dotted text of an IPv4 address.
pub fn ipv4_string(a: u32) -> (r: String)
    ensures
        r@ == ipv4_text(a),
{
    let mut s = String::new();
    proof {
        reveal_strlit("");
    }
    append_ipv4(&mut s, a);
    assert(s@ =~= ipv4_text(a));
    s
}

/// The hexadecimal digit of a value below 16.
pub open spec fn hex_char(d: int) -> char {
    if d < 10 {
        ('0' as int + d) as char
    } else {
        ('a' as int + d - 10) as char
    }
}

/// The hexadecimal digits of `n`, without leading zeros.
pub open spec fn hex_text(n: nat) -> Seq<char>
    decreases n,
{
    if n < 16 {
        seq![hex_char(n as int)]
    } else {
        hex_text(n / 16).push(hex_char((n % 16) as int))
    }
}

/// The text of one hexadecimal digit.
fn hex_digit_text(d: u32) -> (r: &'static str)
    requires
        d < 16,
    ensures
        r@ == seq![hex_char(d as int)],
{
    if d < 10 {
        digit_text(d)
    } else {
        proof {
            reveal_strlit("a");
            reveal_strlit("b");
            reveal_strlit("c");
            reveal_strlit("d");
            reveal_strlit("e");
            reveal_strlit("f");
        }
        let r = if d == 10 {
            "a"
        } else if d == 11 {
            "b"
        } else if d == 12 {
            "c"
        } else if d == 13 {
            "d"
        } else if d == 14 {
            "e"
        } else {
            "f"
        };
        assert(r@ =~= seq![hex_char(d as int)]);
        r
    }
}

/// Appends the hexadecimal digits of `n`.
pub fn append_hex(text: &mut String, n: u32)
    ensures
        final(text)@ == old(text)@ + hex_text(n as nat),
    decreases n,
{
    let ghost start = text@;
    if n >= 16 {
        append_hex(text, n / 16);
    }
    text.append(hex_digit_text(n % 16));
    assert(text@ =~= start + hex_text(n as nat));
}

/// The eight groups of an IPv6 address.
pub open spec fn groups_of(x: u128) -> Seq<u32> {
    Seq::new(8, |k: int| (x as int / (vstd::arithmetic::power2::pow2((112 - 16 * k) as nat) as int)
        % 0x10000) as u32)
}

/// How many zero groups stand from `i` on.
pub open spec fn run_at(gs: Seq<u32>, i: int) -> int
    decreases gs.len() - i,
{
    if i < 0 || i >= gs.len() || gs[i] != 0 {
        0
    } else {
        1 + run_at(gs, i + 1)
    }
}

/// The first position in front of `n` with the longest run of zero groups.
pub open spec fn best_run(gs: Seq<u32>, n: int) -> int
    decreases n,
{
    if n <= 1 {
        0
    } else {
        let b = best_run(gs, n - 1);
        if run_at(gs, n - 1) > run_at(gs, b) {
            n - 1
        } else {
            b
        }
    }
}

/// The groups between `from` and `to` with colons between them.
pub open spec fn colon_text(gs: Seq<u32>, from: int, to: int) -> Seq<char>
    decreases to - from,
{
    if from >= to {
        Seq::empty()
    } else if from + 1 == to {
        hex_text(gs[from] as nat)
    } else {
        colon_text(gs, from, to - 1) + ":"@ + hex_text(gs[to - 1] as nat)
    }
}

/// The text of an IPv6 address: the longest run of two or more zero groups, the first of several,
/// shortened to two colons, and an IPv4-mapped address with a dotted end.
pub open spec fn ipv6_text(x: u128) -> Seq<char> {
    let gs = groups_of(x);
    if run_at(gs, 0) == 5 && gs[5] == 0xffff {
        "::ffff:"@ + ipv4_text((gs[6] * 0x10000 + gs[7]) as u32)
    } else {
        let b = best_run(gs, 8);
        let n = run_at(gs, b);
        if n > 1 {
            colon_text(gs, 0, b) + "::"@ + colon_text(gs, b + n, 8)
        } else {
            colon_text(gs, 0, 8)
        }
    }
}

/// One group of an IPv6 address.
fn group_at(x: u128, k: u32) -> (g: u32)
    requires
        k < 8,
    ensures
        g == groups_of(x)[k as int],
{
    let s: u32 = 112 - 16 * k;
    proof {
        vstd::bits::lemma_u128_shr_is_div(x, s as u128);
    }
    ((x >> s) % 0x10000) as u32
}

/// The eight groups of an IPv6 address.
fn split_groups(x: u128) -> (r: Vec<u32>)
    ensures
        r@ == groups_of(x),
{
    let mut v: Vec<u32> = Vec::new();
    let mut k: u32 = 0;
    while k < 8
        invariant
            k <= 8,
            v@ == groups_of(x).take(k as int),
        decreases 8 - k,
    {
        v.push(group_at(x, k));
        k = k + 1;
        assert(v@ =~= groups_of(x).take(k as int));
    }
    assert(v@ =~= groups_of(x));
    v
}

/// How many zero groups stand from `i` on.
fn count_zeros(gs: &Vec<u32>, i: usize) -> (n: usize)
    requires
        i <= gs@.len(),
    ensures
        n == run_at(gs@, i as int),
        i + n <= gs@.len(),
{
    let total: usize = gs.len();
    let mut n: usize = 0;
    while n < total - i && gs[i + n] == 0
        invariant
            total == gs@.len(),
            i + n <= total,
            run_at(gs@, i as int) == n + run_at(gs@, i + n),
        decreases total - i - n,
    {
        n = n + 1;
    }
    n
}

/// Appends the groups between `from` and `to` with colons between them.
fn append_groups(text: &mut String, gs: &Vec<u32>, from: usize, to: usize)
    requires
        to <= gs@.len(),
    ensures
        final(text)@ == old(text)@ + colon_text(gs@, from as int, to as int),
{
    let ghost start = text@;
    let mut i: usize = from;
    assert(start + Seq::<char>::empty() =~= start);
    while i < to
        invariant
            from <= i,
            i <= to || (from > to && i == from),
            to <= gs@.len(),
            text@ == start + colon_text(gs@, from as int, i as int),
        decreases to - i,
    {
        if i > from {
            text.append(":");
        }
        append_hex(text, gs[i]);
        i = i + 1;
        assert(text@ =~= start + colon_text(gs@, from as int, i as int));
    }
    assert(from > to ==> i == from);
    assert(colon_text(gs@, from as int, i as int) == colon_text(gs@, from as int, to as int));
}

/// The text of an IPv6 address.
pub fn ipv6_string(x: u128) -> (r: String)
    ensures
        r@ == ipv6_text(x),
{
    let gs = split_groups(x);
    let mut s = String::new();
    proof {
        reveal_strlit("");
    }
    assert(s@ =~= Seq::<char>::empty());
    if count_zeros(&gs, 0) == 5 && gs[5] == 0xffff {
        s.append("::ffff:");
        assert(gs@[6] < 0x10000);
        assert(gs@[7] < 0x10000);
        append_ipv4(&mut s, gs[6] * 0x10000 + gs[7]);
        assert(s@ =~= ipv6_text(x));
        return s;
    }
    let mut b: usize = 0;
    let mut n: usize = count_zeros(&gs, 0);
    let mut i: usize = 1;
    while i < 8
        invariant
            1 <= i <= 8,
            gs@.len() == 8,
            b == best_run(gs@, i as int),
            b < i,
            n == run_at(gs@, b as int),
            b + n <= 8,
        decreases 8 - i,
    {
        let m: usize = count_zeros(&gs, i);
        if m > n {
            b = i;
            n = m;
        }
        i = i + 1;
    }
    if n > 1 {
        append_groups(&mut s, &gs, 0, b);
        s.append("::");
        append_groups(&mut s, &gs, b + n, 8);
    } else {
        append_groups(&mut s, &gs, 0, 8);
    }
    assert(s@ =~= ipv6_text(x));
    s
}

proof fn lemma_find_at(s: Seq<char>, c: char, from: int, at: int)
    requires
        0 <= from <= at < s.len(),
        s[at] == c,
        forall|i: int| from <= i < at ==> s[i] != c,
    ensures
        find_char(s, c, from) == Some(at),
    decreases at - from,
{
    if from < at {
        lemma_find_at(s, c, from + 1, at);
    }
}

proof fn lemma_octet_text(n: nat)
    requires
        n < 256,
    ensures
        octet(decimal_text(n)) == Some(n as int),
        forall|i: int| 0 <= i < decimal_text(n).len() ==> decimal_text(n)[i] != '.',
{
    reveal_with_fuel(decimal_text, 4);
    lemma_decimal_roundtrip(n);
    let t = decimal_text(n);
    assert(1 <= t.len() <= 3);
    if n >= 10 {
        assert(n / 10 > 0);
        assert(t[0] != '0') by {
            if n >= 100 {
                let d = (('0' as int) + (n / 100) % 10) as char;
                assert(d as int == 48 + (n / 100) % 10);
                assert(t[0] == d);
            } else {
                let d = (('0' as int) + (n / 10) % 10) as char;
                assert(d as int == 48 + (n / 10) % 10);
                assert(t[0] == d);
            }
        }
    }
    assert forall|i: int| 0 <= i < t.len() implies t[i] != '.' by {
        lemma_all_digits(n, i);
    }
}

proof fn lemma_all_digits(n: nat, i: int)
    requires
        0 <= i < decimal_text(n).len(),
    ensures
        decimal_text(n)[i] != '.',
    decreases n,
{
    let t = decimal_text(n);
    let d = (('0' as int) + n % 10) as char;
    assert(d as int == 48 + n % 10);
    if i == t.len() - 1 {
        assert(t[i] == d);
    } else {
        assert(n >= 10);
        assert(t[i] == decimal_text(n / 10)[i]);
        lemma_all_digits(n / 10, i);
    }
}

/// The digits of a number are no dotted address.
pub proof fn lemma_decimal_not_dotted(n: nat)
    ensures
        ipv4(decimal_text(n)) is None,
{
    let t = decimal_text(n);
    assert forall|i: int| 0 <= i < t.len() implies t[i] != '.' by {
        lemma_all_digits(n, i);
    }
    lemma_find_none(t, '.', 0);
}

proof fn lemma_find_none(s: Seq<char>, c: char, from: int)
    requires
        0 <= from,
        forall|i: int| from <= i < s.len() ==> s[i] != c,
    ensures
        find_char(s, c, from) is None,
    decreases s.len() - from,
{
    if from < s.len() {
        lemma_find_none(s, c, from + 1);
    }
}

/// Where the dots of a dotted text stand and what stands between them.
proof fn lemma_dotted(w: Seq<char>, x: Seq<char>, y: Seq<char>, z: Seq<char>)
    requires
        forall|i: int| 0 <= i < w.len() ==> w[i] != '.',
        forall|i: int| 0 <= i < x.len() ==> x[i] != '.',
        forall|i: int| 0 <= i < y.len() ==> y[i] != '.',
    ensures
        ({
            let t = w + "."@ + x + "."@ + y + "."@ + z;
            let p = w.len() as int;
            let q = p + 1 + x.len();
            let r = q + 1 + y.len();
            &&& find_char(t, '.', 0) == Some(p)
            &&& find_char(t, '.', p + 1) == Some(q)
            &&& find_char(t, '.', q + 1) == Some(r)
            &&& t.subrange(0, p) == w
            &&& t.subrange(p + 1, q) == x
            &&& t.subrange(q + 1, r) == y
            &&& t.subrange(r + 1, t.len() as int) == z
        }),
{
    reveal_strlit(".");
    let t = w + "."@ + x + "."@ + y + "."@ + z;
    let p = w.len() as int;
    let q = p + 1 + x.len();
    let r = q + 1 + y.len();
    assert(t.subrange(0, p) =~= w);
    assert(t.subrange(p + 1, q) =~= x);
    assert(t.subrange(q + 1, r) =~= y);
    assert(t.subrange(r + 1, t.len() as int) =~= z);
    assert(t[p] == '.' && t[q] == '.' && t[r] == '.');
    assert forall|i: int| 0 <= i < p implies t[i] != '.' by {
        assert(t[i] == w[i]);
    }
    assert forall|i: int| p + 1 <= i < q implies t[i] != '.' by {
        assert(t[i] == x[i - p - 1]);
    }
    assert forall|i: int| q + 1 <= i < r implies t[i] != '.' by {
        assert(t[i] == y[i - q - 1]);
    }
    lemma_find_at(t, '.', 0, p);
    lemma_find_at(t, '.', p + 1, q);
    lemma_find_at(t, '.', q + 1, r);
}

/// The four octets of an address make it up.
proof fn lemma_octets(a: u32)
    ensures
        a == a / 0x1000000 * 0x1000000 + a / 0x10000 % 0x100 * 0x10000 + a / 0x100 % 0x100 * 0x100 + a
            % 0x100,
{
}

/// Four octets with dots between them are read as the address that they make up.
proof fn lemma_dotted_octets(w: Seq<char>, x: Seq<char>, y: Seq<char>, z: Seq<char>, a: u32)
    requires
        octet(w) == Some((a / 0x1000000) as int),
        octet(x) == Some((a / 0x10000 % 0x100) as int),
        octet(y) == Some((a / 0x100 % 0x100) as int),
        octet(z) == Some((a % 0x100) as int),
        forall|i: int| 0 <= i < w.len() ==> w[i] != '.',
        forall|i: int| 0 <= i < x.len() ==> x[i] != '.',
        forall|i: int| 0 <= i < y.len() ==> y[i] != '.',
    ensures
        ipv4(w + "."@ + x + "."@ + y + "."@ + z) == Some(a),
{
    lemma_dotted(w, x, y, z);
    lemma_octets(a);
    let p = w.len() as int;
    let q = p + 1 + x.len();
    lemma_ipv4_parts(w + "."@ + x + "."@ + y + "."@ + z, p, q, q + 1 + y.len());
}

/// The dotted text of an address is read back as that address.
pub proof fn lemma_ipv4_roundtrip(a: u32)
    ensures
        ipv4(ipv4_text(a)) == Some(a),
{
    let w = decimal_text((a / 0x1000000) as nat);
    let x = decimal_text((a / 0x10000 % 0x100) as nat);
    let y = decimal_text((a / 0x100 % 0x100) as nat);
    let z = decimal_text((a % 0x100) as nat);
    assert(ipv4(w + "."@ + x + "."@ + y + "."@ + z) == Some(a)) by {
        lemma_octet_text((a / 0x1000000) as nat);
        lemma_octet_text((a / 0x10000 % 0x100) as nat);
        lemma_octet_text((a / 0x100 % 0x100) as nat);
        lemma_octet_text((a % 0x100) as nat);
        lemma_dotted_octets(w, x, y, z, a);
    }
}

} // verus!
