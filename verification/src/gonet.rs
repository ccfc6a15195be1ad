//! The parts of Go's `net` package that sonyflake relies on.
//!
//! Go models an IP address as a byte slice that holds either 4 or 16 bytes, and
//! sonyflake depends on that duality (`To4`, `Equal`, indexing `ip[0]`). [`Ip`]
//! keeps the same representation.

use vstd::prelude::*;
use crate::text::{
    decimal, digit_char, hex_digits, padded_hex, push_char, push_decimal, push_hex,
    push_padded_hex, str_chars,
};

verus! {

/// Prefix of an IPv4-mapped IPv6 address, Go's `v4InV6Prefix`.
pub open spec fn v4_in_v6_prefix() -> Seq<u8> {
    seq![0u8, 0, 0, 0, 0, 0, 0, 0, 0, 0, 0xff, 0xff]
}

/// Go's `IP.To4`: the 4-byte form of an IPv4 address, whether given in 4 bytes
/// or IPv4-mapped in 16; nothing for other addresses.
pub open spec fn to4_bytes(b: Seq<u8>) -> Option<Seq<u8>> {
    if b.len() == 4 {
        Some(b)
    } else if b.len() == 16 && b.subrange(0, 12) == v4_in_v6_prefix() {
        Some(b.subrange(12, 16))
    } else {
        None
    }
}

/// Go's `IP.IsLoopback`: `127.0.0.0/8`, or `::1`.
pub open spec fn is_loopback_bytes(b: Seq<u8>) -> bool {
    match to4_bytes(b) {
        Some(v) => v[0] == 127,
        None => b.len() == 16 && (forall|i: int| 0 <= i < 15 ==> b[i] == 0) && b[15] == 1,
    }
}

/// Go's `IP.Equal`: the same bytes, or the 4-byte and IPv4-mapped 16-byte
/// forms of one address.
pub open spec fn ip_equal(a: Seq<u8>, b: Seq<u8>) -> bool {
    ||| a == b
    ||| a.len() == 4 && b.len() == 16 && b.subrange(0, 12) == v4_in_v6_prefix() && a
        == b.subrange(12, 16)
    ||| a.len() == 16 && b.len() == 4 && a.subrange(0, 12) == v4_in_v6_prefix() && a.subrange(
        12,
        16,
    ) == b
}

/// Equivalent of Go's `net.IP`. A Go nil `net.IP` is `Option::None`.
#[derive(Clone, Debug, PartialEq, Eq, Hash)]
pub struct Ip(pub Vec<u8>);

/// Whether the 16 bytes start with the IPv4-mapped prefix.
fn has_v4_prefix(b: &Vec<u8>) -> (r: bool)
    requires
        b.len() == 16,
    ensures
        r == (b@.subrange(0, 12) == v4_in_v6_prefix()),
{
    let mut i: usize = 0;
    while i < 10
        invariant
            i <= 10,
            b.len() == 16,
            forall|j: int| 0 <= j < i ==> b@[j] == 0,
        decreases 10 - i,
    {
        if b[i] != 0 {
            assert(b@.subrange(0, 12)[i as int] != v4_in_v6_prefix()[i as int]);
            return false;
        }
        i = i + 1;
    }
    if b[10] != 0xff || b[11] != 0xff {
        assert(b@.subrange(0, 12)[10] != v4_in_v6_prefix()[10] || b@.subrange(0, 12)[11]
            != v4_in_v6_prefix()[11]);
        return false;
    }
    assert(b@.subrange(0, 12) =~= v4_in_v6_prefix());
    true
}

/// The bytes `b[from..to]` as a new vector.
fn copy_range(b: &Vec<u8>, from: usize, to: usize) -> (r: Vec<u8>)
    requires
        from <= to <= b.len(),
    ensures
        r@ == b@.subrange(from as int, to as int),
{
    let mut r: Vec<u8> = Vec::new();
    let mut i = from;
    while i < to
        invariant
            from <= i <= to <= b.len(),
            r@ == b@.subrange(from as int, i as int),
        decreases to - i,
    {
        r.push(b[i]);
        i = i + 1;
        assert(r@ =~= b@.subrange(from as int, i as int));
    }
    r
}

/// Whether two byte vectors hold the same bytes.
fn bytes_equal(a: &Vec<u8>, b: &Vec<u8>) -> (r: bool)
    ensures
        r == (a@ == b@),
{
    if a.len() != b.len() {
        return false;
    }
    let mut i: usize = 0;
    while i < a.len()
        invariant
            a.len() == b.len(),
            i <= a.len(),
            forall|j: int| 0 <= j < i ==> a@[j] == b@[j],
        decreases a.len() - i,
    {
        if a[i] != b[i] {
            return false;
        }
        i = i + 1;
    }
    assert(a@ =~= b@);
    true
}

impl Ip {
    /// Go's `net.IPv4(a, b, c, d)`, kept in the 4-byte form.
    pub fn v4(a: u8, b: u8, c: u8, d: u8) -> (ip: Ip)
        ensures
            ip.0@ == seq![a, b, c, d],
    {
        let mut v: Vec<u8> = Vec::new();
        v.push(a);
        v.push(b);
        v.push(c);
        v.push(d);
        assert(v@ =~= seq![a, b, c, d]);
        Ip(v)
    }

    /// The bytes of the address.
    pub fn as_bytes(&self) -> (b: &[u8])
        ensures
            b@ == self.0@,
    {
        self.0.as_slice()
    }

    /// Go's `IP.To4`.
    pub fn to4(&self) -> (r: Option<Ip>)
        ensures
            r matches Some(ip) ==> to4_bytes(self.0@) == Some(ip.0@),
            r is None <==> to4_bytes(self.0@) is None,
    {
        if self.0.len() == 4 {
            Some(Ip(copy_range(&self.0, 0, 4)))
        } else if self.0.len() == 16 && has_v4_prefix(&self.0) {
            Some(Ip(copy_range(&self.0, 12, 16)))
        } else {
            None
        }
    }

    /// Go's `IP.IsLoopback`.
    pub fn is_loopback(&self) -> (r: bool)
        ensures
            r == is_loopback_bytes(self.0@),
    {
        match self.to4() {
            Some(ip4) => ip4.0[0] == 127,
            None => {
                if self.0.len() != 16 {
                    return false;
                }
                let mut i: usize = 0;
                while i < 15
                    invariant
                        i <= 15,
                        self.0.len() == 16,
                        to4_bytes(self.0@) is None,
                        forall|j: int| 0 <= j < i ==> self.0@[j] == 0,
                    decreases 15 - i,
                {
                    if self.0[i] != 0 {
                        assert(self.0@[i as int] != 0);
                        return false;
                    }
                    i = i + 1;
                }
                self.0[15] == 1
            },
        }
    }

    /// Go's `IP.Equal`.
    pub fn equal(&self, other: &Ip) -> (r: bool)
        ensures
            r == ip_equal(self.0@, other.0@),
    {
        if bytes_equal(&self.0, &other.0) {
            return true;
        }
        if self.0.len() == 4 && other.0.len() == 16 {
            has_v4_prefix(&other.0) && bytes_equal(&self.0, &copy_range(&other.0, 12, 16))
        } else if self.0.len() == 16 && other.0.len() == 4 {
            has_v4_prefix(&self.0) && bytes_equal(&copy_range(&self.0, 12, 16), &other.0)
        } else {
            false
        }
    }
}


// ---------------------------------------------------------------------------
// Parsing
// ---------------------------------------------------------------------------

pub open spec fn is_digit(c: char) -> bool {
    '0' <= c <= '9'
}

pub open spec fn all_digits(d: Seq<char>) -> bool {
    forall|i: int| 0 <= i < d.len() ==> is_digit(#[trigger] d[i])
}

/// The number a string of decimal digits denotes.
pub open spec fn digits_value(d: Seq<char>) -> nat
    decreases d.len(),
{
    if d.len() == 0 {
        0
    } else {
        digits_value(d.drop_last()) * 10 + (d.last() as nat - 48) as nat
    }
}

/// What `u32::from_str` reads in a short field: an optional `+` and one or
/// more decimal digits.
pub open spec fn field_number(f: Seq<char>) -> Option<nat> {
    let d = if f.len() > 0 && f[0] == '+' {
        f.skip(1)
    } else {
        f
    };
    if d.len() > 0 && all_digits(d) {
        Some(digits_value(d))
    } else {
        None
    }
}

/// One field of a dotted IPv4 address: one to three characters, no leading
/// zero, a number no larger than 255.
pub open spec fn octet(f: Seq<char>) -> Option<u8> {
    if f.len() == 0 || f.len() > 3 {
        None
    } else if f.len() > 1 && f[0] == '0' {
        None
    } else {
        match field_number(f) {
            Some(v) => if v > 255 {
                None
            } else {
                Some(v as u8)
            },
            None => None,
        }
    }
}

/// The fields of `s` between dots.
pub open spec fn split_dots(s: Seq<char>) -> Seq<Seq<char>>
    decreases s.len(),
{
    if s.len() == 0 {
        seq![Seq::empty()]
    } else {
        let fs = split_dots(s.drop_last());
        if s.last() == '.' {
            fs.push(Seq::empty())
        } else {
            fs.update(fs.len() - 1, fs.last().push(s.last()))
        }
    }
}

/// The octets of the fields, or nothing if one of them is not an octet.
pub open spec fn octets(fs: Seq<Seq<char>>) -> Option<Seq<u8>>
    decreases fs.len(),
{
    if fs.len() == 0 {
        Some(Seq::empty())
    } else {
        match (octets(fs.drop_last()), octet(fs.last())) {
            (Some(o), Some(x)) => Some(o.push(x)),
            _ => None,
        }
    }
}

/// Go's `net.ParseIP` on a dotted address: four octets, returned in the
/// 16-byte IPv4-mapped form.
pub open spec fn parse_dotted(s: Seq<char>) -> Option<Seq<u8>> {
    match octets(split_dots(s)) {
        Some(o) => if o.len() == 4 {
            Some(v4_in_v6_prefix() + o)
        } else {
            None
        },
        None => None,
    }
}

/// The bytes of an optional address.
pub open spec fn ip_bytes(ip: Option<Ip>) -> Option<Seq<u8>> {
    match ip {
        Some(ip) => Some(ip.0@),
        None => None,
    }
}

pub open spec fn vec_bytes(v: Option<Vec<u8>>) -> Option<Seq<u8>> {
    match v {
        Some(v) => Some(v@),
        None => None,
    }
}

proof fn lemma_split_dots_nonempty(s: Seq<char>)
    ensures
        split_dots(s).len() >= 1,
    decreases s.len(),
{
    if s.len() > 0 {
        lemma_split_dots_nonempty(s.drop_last());
    }
}

proof fn lemma_octets_prefix_fails(fs: Seq<Seq<char>>, k: int)
    requires
        0 <= k <= fs.len(),
        octets(fs.take(k)) is None,
    ensures
        octets(fs) is None,
    decreases fs.len() - k,
{
    if k < fs.len() {
        assert(fs.take(k + 1).drop_last() =~= fs.take(k));
        lemma_octets_prefix_fails(fs, k + 1);
    } else {
        assert(fs.take(k) =~= fs);
    }
}

/// The value of a field of digits, without overflow for at most three characters.
fn field_value(f: &Vec<char>, from: usize) -> (v: u32)
    requires
        from <= f.len() <= 3,
        forall|i: int| from <= i < f.len() ==> is_digit(#[trigger] f@[i]),
    ensures
        v == digits_value(f@.subrange(from as int, f.len() as int)),
{
    let mut v: u32 = 0;
    let mut i = from;
    while i < f.len()
        invariant
            from <= i <= f.len() <= 3,
            forall|j: int| from <= j < f.len() ==> is_digit(#[trigger] f@[j]),
            v == digits_value(f@.subrange(from as int, i as int)),
            i == from ==> v == 0,
            i == from + 1 ==> v < 10,
            i == from + 2 ==> v < 100,
            v < 1000,
        decreases f.len() - i,
    {
        assert(f@.subrange(from as int, i + 1).drop_last() =~= f@.subrange(from as int, i as int));
        let d = f[i] as u32 - 48;
        assert(is_digit(f@[i as int]));
        v = v * 10 + d;
        i = i + 1;
    }
    v
}

/// The octet of one field.
fn parse_octet(f: &Vec<char>) -> (r: Option<u8>)
    ensures
        r == octet(f@),
{
    if f.len() == 0 || f.len() > 3 {
        return None;
    }
    if f.len() > 1 && f[0] == '0' {
        return None;
    }
    let from: usize = if f[0] == '+' { 1 } else { 0 };
    let ghost d = if f@.len() > 0 && f@[0] == '+' { f@.skip(1) } else { f@ };
    assert(d =~= f@.subrange(from as int, f.len() as int));
    if from >= f.len() {
        return None;
    }
    let mut i = from;
    while i < f.len()
        invariant
            from <= i <= f.len() <= 3,
            1 <= f.len(),
            !(f@.len() > 1 && f@[0] == '0'),
            from == 1 ==> f@[0] == '+',
            from == 0 ==> f@[0] != '+',
            from <= 1,
            d == f@.subrange(from as int, f.len() as int),
            d == (if f@.len() > 0 && f@[0] == '+' { f@.skip(1) } else { f@ }),
            forall|j: int| from <= j < i ==> is_digit(#[trigger] f@[j]),
        decreases f.len() - i,
    {
        if f[i] < '0' || f[i] > '9' {
            assert(d[i - from] == f@[i as int]);
            assert(!is_digit(d[i - from]));
            assert(!all_digits(d));
            return None;
        }
        i = i + 1;
    }
    assert forall|j: int| 0 <= j < d.len() implies is_digit(#[trigger] d[j]) by {
        assert(d[j] == f@[j + from]);
    }
    let v = field_value(f, from);
    if v > 255 {
        None
    } else {
        Some(v as u8)
    }
}

/// The fields of `cs` between dots.
fn split_fields(cs: &Vec<char>) -> (fs: Vec<Vec<char>>)
    ensures
        fs@.len() == split_dots(cs@).len(),
        forall|i: int| 0 <= i < fs@.len() ==> #[trigger] fs@[i]@ == split_dots(cs@)[i],
{
    let mut fs: Vec<Vec<char>> = Vec::new();
    let mut cur: Vec<char> = Vec::new();
    let mut i: usize = 0;
    while i < cs.len()
        invariant
            i <= cs.len(),
            split_dots(cs@.take(i as int)).len() == fs@.len() + 1,
            forall|j: int| 0 <= j < fs@.len() ==> #[trigger] fs@[j]@ == split_dots(
                cs@.take(i as int),
            )[j],
            cur@ == split_dots(cs@.take(i as int)).last(),
        decreases cs.len() - i,
    {
        proof {
            assert(cs@.take(i + 1).drop_last() =~= cs@.take(i as int));
            lemma_split_dots_nonempty(cs@.take(i as int));
        }
        if cs[i] == '.' {
            fs.push(cur);
            cur = Vec::new();
        } else {
            cur.push(cs[i]);
        }
        i = i + 1;
    }
    fs.push(cur);
    assert(cs@.take(cs.len() as int) =~= cs@);
    fs
}

/// Parses a dotted IPv4 address into its 16-byte IPv4-mapped form.
fn parse_dotted_exec(cs: &Vec<char>) -> (r: Option<Ip>)
    ensures
        ip_bytes(r) == parse_dotted(cs@),
{
    let fs = split_fields(cs);
    let ghost gfs = split_dots(cs@);
    let mut o: Vec<u8> = Vec::new();
    let mut k: usize = 0;
    while k < fs.len()
        invariant
            gfs == split_dots(cs@),
            k <= fs@.len() == gfs.len(),
            forall|i: int| 0 <= i < fs@.len() ==> #[trigger] fs@[i]@ == gfs[i],
            octets(gfs.take(k as int)) == Some(o@),
        decreases fs.len() - k,
    {
        assert(gfs.take(k + 1).drop_last() =~= gfs.take(k as int));
        assert(gfs.take(k + 1).last() == fs@[k as int]@);
        match parse_octet(&fs[k]) {
            Some(x) => {
                o.push(x);
            },
            None => {
                proof {
                    assert(octets(gfs.take(k + 1)) is None);
                    lemma_octets_prefix_fails(gfs, k + 1);
                    assert(octets(gfs) is None);
                }
                return None;
            },
        }
        k = k + 1;
    }
    assert(gfs.take(fs.len() as int) =~= gfs);
    if o.len() != 4 {
        return None;
    }
    let mut b: Vec<u8> = Vec::new();
    let mut j: usize = 0;
    while j < 10
        invariant
            j <= 10,
            b@ == Seq::new(j as nat, |x: int| 0u8),
        decreases 10 - j,
    {
        b.push(0);
        j = j + 1;
        assert(b@ =~= Seq::new(j as nat, |x: int| 0u8));
    }
    b.push(0xff);
    b.push(0xff);
    b.push(o[0]);
    b.push(o[1]);
    b.push(o[2]);
    b.push(o[3]);
    assert(b@ =~= v4_in_v6_prefix() + o@);
    Some(Ip(b))
}

/// Whether `c` occurs in `cs`.
fn contains_char(cs: &Vec<char>, c: char) -> (r: bool)
    ensures
        r == cs@.contains(c),
{
    let mut i: usize = 0;
    while i < cs.len()
        invariant
            i <= cs.len(),
            forall|j: int| 0 <= j < i ==> cs@[j] != c,
        decreases cs.len() - i,
    {
        if cs[i] == c {
            assert(cs@[i as int] == c);
            return true;
        }
        i = i + 1;
    }
    false
}

/// Whether `r` is what Go's `net.ParseIP` gives for `text`: the 16-byte form
/// of a dotted IPv4 address, what `parse_ipv6` gives for a text with a colon
/// (called on a string of that text), and nothing otherwise.
pub open spec fn parse_result<F: Fn(&str) -> Option<Vec<u8>>>(
    text: Seq<char>,
    parse_ipv6: F,
    r: Option<Ip>,
) -> bool {
    if text.contains('.') && !text.contains(':') {
        ip_bytes(r) == parse_dotted(text)
    } else if text.contains(':') {
        exists|s: &str, v: Option<Vec<u8>>|
            s@ == text && call_ensures(parse_ipv6, (s,), v) && ip_bytes(r) == vec_bytes(v)
    } else {
        r is None
    }
}

impl Ip {
    /// Go's `net.ParseIP`: a dotted IPv4 address comes back in its 16-byte
    /// IPv4-mapped form, a text with a colon is handed to `parse_ipv6`, the
    /// parser of IPv6 text, and anything else is nothing.
    pub fn parse<F: Fn(&str) -> Option<Vec<u8>>>(s: &str, parse_ipv6: &F) -> (r: Option<Ip>)
        requires
            call_requires(*parse_ipv6, (s,)),
        ensures
            parse_result(s@, *parse_ipv6, r),
            s@.contains('.') && !s@.contains(':') ==> ip_bytes(r) == parse_dotted(s@),
            s@.contains(':') ==> exists|v: Option<Vec<u8>>|
                call_ensures(*parse_ipv6, (s,), v) && ip_bytes(r) == vec_bytes(v),
            !s@.contains('.') && !s@.contains(':') ==> r is None,
    {
        let cs = str_chars(s);
        let has_colon = contains_char(&cs, ':');
        if contains_char(&cs, '.') && !has_colon {
            return parse_dotted_exec(&cs);
        }
        if has_colon {
            let v6 = parse_ipv6(s);
            let ghost g = v6;
            let r = match v6 {
                Some(v) => Some(Ip(v)),
                None => None,
            };
            assert(call_ensures(*parse_ipv6, (s,), g) && ip_bytes(r) == vec_bytes(g));
            return r;
        }
        None
    }
}


// ---------------------------------------------------------------------------
// Formatting
// ---------------------------------------------------------------------------

/// The eight 16-bit groups of a 16-byte address.
pub open spec fn groups(b: Seq<u8>) -> Seq<nat> {
    Seq::new(8, |i: int| (b[2 * i] as nat * 256 + b[2 * i + 1] as nat) as nat)
}

/// Whether `g[start..start + len]` is a run of zero groups.
pub open spec fn zero_run(g: Seq<nat>, start: int, len: int) -> bool {
    &&& 0 <= start
    &&& 0 <= len
    &&& start + len <= g.len()
    &&& forall|i: int| start <= i < start + len ==> g[i] == 0
}

/// Whether `g[start..start + len]` is the first of the longest runs of zero
/// groups (`start` being 0 where there is no zero group).
pub open spec fn first_longest_zero_run(g: Seq<nat>, start: int, len: int) -> bool {
    &&& zero_run(g, start, len)
    &&& forall|s2: int, l2: int| #[trigger] zero_run(g, s2, l2) ==> l2 <= len
    &&& forall|s2: int| len > 0 && #[trigger] zero_run(g, s2, len) ==> start <= s2
    &&& len == 0 ==> start == 0
}

/// There is one first longest run of zero groups.
proof fn lemma_first_longest_unique(g: Seq<nat>, s1: int, l1: int, s2: int, l2: int)
    requires
        first_longest_zero_run(g, s1, l1),
        first_longest_zero_run(g, s2, l2),
    ensures
        s1 == s2 && l1 == l2,
{
    assert(l1 <= l2 && l2 <= l1);
}

/// Groups in lower-case hex without leading zeros, joined by `:`.
pub open spec fn join_hex(g: Seq<nat>) -> Seq<char>
    decreases g.len(),
{
    if g.len() == 0 {
        Seq::empty()
    } else if g.len() == 1 {
        hex_digits(g[0])
    } else {
        join_hex(g.drop_last()) + seq![':'] + hex_digits(g.last())
    }
}

/// The text of a 16-byte address: its groups, the first longest run of two
/// or more zero groups written as `::`.
pub open spec fn ipv6_text(b: Seq<u8>) -> Seq<char> {
    let g = groups(b);
    let (start, len) = choose|start: int, len: int| first_longest_zero_run(g, start, len);
    if len > 1 {
        join_hex(g.take(start)) + seq![':', ':'] + join_hex(g.skip(start + len))
    } else {
        join_hex(g)
    }
}

/// Two lower-case hex digits per byte.
pub open spec fn hex_bytes(b: Seq<u8>) -> Seq<char>
    decreases b.len(),
{
    if b.len() == 0 {
        Seq::empty()
    } else {
        hex_bytes(b.drop_last()) + padded_hex(b.last() as nat, 2)
    }
}

/// Go's `%s` rendering of an IP address: dotted decimal for IPv4, IPv6 text
/// for other 16-byte addresses, `<nil>` for the empty address, and `?` and
/// the hex bytes otherwise.
pub open spec fn ip_text(b: Seq<u8>) -> Seq<char> {
    if b.len() == 0 {
        "<nil>"@
    } else {
        ip_text_nonempty(b)
    }
}

/// `ip_text` of an address with at least one byte.
pub open spec fn ip_text_nonempty(b: Seq<u8>) -> Seq<char> {
    match to4_bytes(b) {
        Some(v) => decimal(v[0] as nat) + seq!['.'] + decimal(v[1] as nat) + seq!['.']
            + decimal(v[2] as nat) + seq!['.'] + decimal(v[3] as nat),
        None => if b.len() == 16 {
            ipv6_text(b)
        } else {
            seq!['?'] + hex_bytes(b)
        },
    }
}

/// Appends the groups `g[from..to]` joined by `:`.
fn push_join_hex(s: &mut String, g: &Vec<u64>, from: usize, to: usize)
    requires
        from <= to <= g.len(),
    ensures
        final(s)@ == old(s)@ + join_hex(g@.subrange(from as int, to as int).map_values(
            |x: u64| x as nat,
        )),
{
    let ghost gs = g@.map_values(|x: u64| x as nat);
    let mut k = from;
    while k < to
        invariant
            from <= k <= to <= g.len(),
            gs == g@.map_values(|x: u64| x as nat),
            s@ == old(s)@ + join_hex(gs.subrange(from as int, k as int)),
        decreases to - k,
    {
        let ghost before = s@;
        if k > from {
            push_char(s, ':');
        }
        push_hex(s, g[k]);
        proof {
            let prev = gs.subrange(from as int, k as int);
            let next = gs.subrange(from as int, k + 1);
            assert(next.drop_last() =~= prev);
            assert(next.last() == g@[k as int] as nat);
            if k == from {
                assert(prev.len() == 0);
                assert(join_hex(prev) =~= Seq::<char>::empty());
                assert(s@ =~= old(s)@ + join_hex(next));
            } else {
                assert(s@ =~= old(s)@ + join_hex(next));
            }
        }
        k = k + 1;
    }
    assert(gs.subrange(from as int, to as int) =~= g@.subrange(from as int, to as int).map_values(
        |x: u64| x as nat,
    ));
}

/// Appends the text of a 16-byte address.
fn push_ipv6(s: &mut String, b: &Vec<u8>)
    requires
        b.len() == 16,
    ensures
        final(s)@ == old(s)@ + ipv6_text(b@),
{
    let mut g: Vec<u64> = Vec::new();
    let mut i: usize = 0;
    while i < 8
        invariant
            i <= 8,
            b.len() == 16,
            g@.len() == i,
            forall|j: int| 0 <= j < i ==> #[trigger] g@[j] as nat == groups(b@)[j],
        decreases 8 - i,
    {
        g.push((b[2 * i] as u64) * 256 + (b[2 * i + 1] as u64));
        i = i + 1;
    }
    let ghost gs = g@.map_values(|x: u64| x as nat);
    assert(gs =~= groups(b@));
    let mut longest_start: usize = 0;
    let mut longest_len: usize = 0;
    let mut cur_start: usize = 0;
    let mut cur_len: usize = 0;
    let mut k: usize = 0;
    while k < 8
        invariant
            k <= 8,
            g@.len() == 8,
            gs == g@.map_values(|x: u64| x as nat),
            gs.len() == 8,
            zero_run(gs, longest_start as int, longest_len as int),
            longest_start + longest_len <= k,
            forall|s2: int, l2: int|
                #[trigger] zero_run(gs, s2, l2) && s2 + l2 <= k ==> l2 <= longest_len,
            forall|s2: int|
                longest_len > 0 && #[trigger] zero_run(gs, s2, longest_len as int) && s2
                    + longest_len <= k ==> longest_start <= s2,
            longest_len == 0 ==> longest_start == 0,
            zero_run(gs, cur_start as int, cur_len as int),
            cur_start + cur_len == k,
            cur_start == 0 || gs[cur_start - 1] != 0,
        decreases 8 - k,
    {
        let ghost ll0: int = longest_len as int;
        let ghost cs0: int = cur_start as int;
        let zero = g[k] == 0;
        assert(gs[k as int] == g@[k as int] as nat);
        if zero {
            cur_len = cur_len + 1;
            if cur_len > longest_len {
                longest_start = cur_start;
                longest_len = cur_len;
            }
        } else {
            cur_start = k + 1;
            cur_len = 0;
        }
        proof {
            let k1: int = k + 1;
            assert forall|s2: int, l2: int|
                #[trigger] zero_run(gs, s2, l2) && s2 + l2 <= k1 implies l2 <= longest_len by {
                if s2 + l2 <= k {
                } else if l2 > 0 {
                    assert(gs[k as int] == 0);
                    if s2 < cs0 {
                        assert(gs[cs0 - 1] == 0);
                    }
                }
            }
            assert forall|s2: int|
                longest_len > 0 && #[trigger] zero_run(gs, s2, longest_len as int) && s2
                    + longest_len <= k1 implies longest_start <= s2 by {
                if s2 + longest_len <= k {
                    if longest_len == ll0 {
                    } else {
                        assert(zero_run(gs, s2, longest_len as int));
                    }
                } else {
                    assert(gs[k as int] == 0);
                    if s2 < cs0 {
                        assert(gs[cs0 - 1] == 0);
                    }
                }
            }
            assert(zero_run(gs, cur_start as int, cur_len as int));
        }
        k = k + 1;
    }
    proof {
        assert forall|s2: int, l2: int| #[trigger] zero_run(gs, s2, l2) implies l2 <= longest_len by {
            assert(s2 + l2 <= 8);
        }
        assert forall|s2: int| longest_len > 0 && #[trigger] zero_run(gs, s2, longest_len as int)
            implies longest_start <= s2 by {
            assert(s2 + longest_len <= 8);
        }
        assert(first_longest_zero_run(gs, longest_start as int, longest_len as int));
        let (cs, cl) = choose|start: int, len: int| first_longest_zero_run(gs, start, len);
        lemma_first_longest_unique(gs, cs, cl, longest_start as int, longest_len as int);
    }
    if longest_len > 1 {
        push_join_hex(s, &g, 0, longest_start);
        push_char(s, ':');
        push_char(s, ':');
        push_join_hex(s, &g, longest_start + longest_len, 8);
        proof {
            assert(g@.subrange(0, longest_start as int).map_values(|x: u64| x as nat) =~= gs.take(
                longest_start as int,
            ));
            assert(g@.subrange((longest_start + longest_len) as int, 8).map_values(
                |x: u64| x as nat,
            ) =~= gs.skip((longest_start + longest_len) as int));
        }
    } else {
        push_join_hex(s, &g, 0, 8);
        assert(g@.subrange(0, 8).map_values(|x: u64| x as nat) =~= gs);
    }
}

/// Appends two hex digits per byte.
fn push_hex_bytes(s: &mut String, b: &Vec<u8>)
    ensures
        final(s)@ == old(s)@ + hex_bytes(b@),
{
    let mut i: usize = 0;
    while i < b.len()
        invariant
            i <= b.len(),
            s@ == old(s)@ + hex_bytes(b@.take(i as int)),
        decreases b.len() - i,
    {
        push_padded_hex(s, b[i] as u64, 2);
        assert(b@.take(i + 1).drop_last() =~= b@.take(i as int));
        i = i + 1;
    }
    assert(b@.take(b.len() as int) =~= b@);
}

/// Lower-case hex of the bytes, two digits each.
pub fn hex(bytes: &Vec<u8>) -> (s: String)
    ensures
        s@ == hex_bytes(bytes@),
{
    let mut s = String::new();
    push_hex_bytes(&mut s, bytes);
    s
}

impl Ip {
    /// Go's `%s` formatting of a `net.IP`.
    pub fn to_string(&self) -> (s: String)
        ensures
            s@ == ip_text(self.0@),
    {
        if self.0.len() == 0 {
            return "<nil>".to_string();
        }
        let mut s = String::new();
        match self.to4() {
            Some(ip4) => {
                push_decimal(&mut s, ip4.0[0] as u64);
                push_char(&mut s, '.');
                push_decimal(&mut s, ip4.0[1] as u64);
                push_char(&mut s, '.');
                push_decimal(&mut s, ip4.0[2] as u64);
                push_char(&mut s, '.');
                push_decimal(&mut s, ip4.0[3] as u64);
                proof {
                    let v = ip4.0@;
                    assert(s@ =~= decimal(v[0] as nat) + seq!['.'] + decimal(v[1] as nat) + seq![
                        '.',
                    ] + decimal(v[2] as nat) + seq!['.'] + decimal(v[3] as nat));
                }
            },
            None => {
                if self.0.len() == 16 {
                    push_ipv6(&mut s, &self.0);
                } else {
                    push_char(&mut s, '?');
                    push_hex_bytes(&mut s, &self.0);
                    assert(s@ =~= seq!['?'] + hex_bytes(self.0@));
                }
            },
        }
        s
    }
}

/// Formats an optional IP the way Go's `%s` verb renders a possibly-nil `net.IP`.
pub fn ip_to_string(ip: &Option<Ip>) -> (s: String)
    ensures
        s@ == match ip {
            Some(ip) => ip_text(ip.0@),
            None => "<nil>"@,
        },
{
    match ip {
        Some(ip) => ip.to_string(),
        None => "<nil>".to_string(),
    }
}

/// Equivalent of Go's `net.IPNet`.
#[derive(Clone, Debug, PartialEq, Eq)]
pub struct IpNet {
    pub ip: Ip,
    pub mask: Vec<u8>,
}

/// Equivalent of Go's `net.Addr`, restricted to the concrete types that
/// `net.InterfaceAddrs` yields. Matching on the variant replaces Go's
/// `a.(*net.IPNet)` type assertion.
#[derive(Clone, Debug, PartialEq, Eq)]
pub enum Addr {
    IpNet(IpNet),
    IpAddr(Ip),
}

impl Addr {
    /// Go's `a.(*net.IPNet)`, the `ok` result as an `Option`.
    pub fn as_ip_net(&self) -> (r: Option<&IpNet>)
        ensures
            match self {
                Addr::IpNet(n) => r == Some(n),
                Addr::IpAddr(_) => r is None,
            },
    {
        match self {
            Addr::IpNet(n) => Some(n),
            _ => None,
        }
    }
}

/// The interface address of a network, as Go's `net.InterfaceAddrs` lists
/// it: the address, and the netmask where the interface has one (empty
/// otherwise).
pub fn ip_net_of(ip: Vec<u8>, mask: Option<Vec<u8>>) -> (a: Addr)
    ensures
        a matches Addr::IpNet(n) && n.ip.0@ == ip@ && n.mask@ == match mask {
            Some(m) => m@,
            None => Seq::<u8>::empty(),
        },
{
    let mask = match mask {
        Some(m) => m,
        None => Vec::new(),
    };
    Addr::IpNet(IpNet { ip: Ip(ip), mask })
}

/// Go's `IP.Equal` is symmetric.
pub proof fn lemma_equal_symmetric(a: Seq<u8>, b: Seq<u8>)
    ensures
        ip_equal(a, b) == ip_equal(b, a),
{
}

/// Every address is `Equal` to itself.
pub proof fn lemma_equal_reflexive(a: Seq<u8>)
    ensures
        ip_equal(a, a),
{
}

/// An address is `Equal` to its 4-byte form.
pub proof fn lemma_equal_to4(a: Seq<u8>)
    requires
        to4_bytes(a) is Some,
    ensures
        ip_equal(a, to4_bytes(a).unwrap()),
        to4_bytes(to4_bytes(a).unwrap()) == to4_bytes(a),
{
    if a.len() == 16 {
        assert(a.subrange(12, 16).len() == 4);
    }
}

} // verus!
