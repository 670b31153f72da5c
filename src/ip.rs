use vstd::prelude::*;
use crate::text::{split_on, split_range, views_of};

verus! {

/// An IP address: a version 4 address as its 32 bits, a version 6 address
/// as its 128 bits, most significant bit first.
#[derive(Clone, Copy, Debug, PartialEq, Eq, Structural)]
pub enum IpAddress {
    V4(u32),
    V6(u128),
}

pub open spec fn is_digit(c: char) -> bool {
    '0' <= c && c <= '9'
}

pub open spec fn digit_value(c: char) -> int {
    c as int - '0' as int
}

/// The number that the decimal digits `s` write.
pub open spec fn decimal_value(s: Seq<char>) -> int
    decreases s.len(),
{
    if s.len() == 0 {
        0
    } else {
        decimal_value(s.drop_last()) * 10 + digit_value(s.last())
    }
}

/// One to three decimal digits without a leading zero, worth at most 255.
pub open spec fn is_octet_text(s: Seq<char>) -> bool {
    &&& 1 <= s.len() <= 3
    &&& forall|i: int| 0 <= i < s.len() ==> is_digit(#[trigger] s[i])
    &&& (s.len() == 1 || s[0] != '0')
    &&& decimal_value(s) <= 255
}

/// The dotted-quad reading of `s`: four octets separated by dots.
pub open spec fn parse_v4_spec(s: Seq<char>) -> Option<u32> {
    let f = split_on(s, '.');
    if f.len() == 4 && forall|i: int| 0 <= i < 4 ==> is_octet_text(#[trigger] f[i]) {
        Some(
            (decimal_value(f[0]) * 0x1000000 + decimal_value(f[1]) * 0x10000 + decimal_value(f[2])
                * 0x100 + decimal_value(f[3])) as u32,
        )
    } else {
        None
    }
}

/// The value of the octet text `f`, if it is one.
fn octet_value(f: &Vec<char>) -> (r: Option<u32>)
    ensures
        r == (if is_octet_text(f@) { Some(decimal_value(f@) as u32) } else { None::<u32> }),
        is_octet_text(f@) ==> 0 <= decimal_value(f@) <= 255,
{
    let n = f.len();
    if n < 1 || n > 3 {
        return None;
    }
    if n > 1 && f[0] == '0' {
        return None;
    }
    let mut v: u32 = 0;
    let mut i: usize = 0;
    while i < n
        invariant
            n == f@.len(),
            1 <= n <= 3,
            i <= n,
            forall|j: int| 0 <= j < i ==> is_digit(#[trigger] f@[j]),
            v == decimal_value(f@.take(i as int)),
            v < 1000,
            i == 0 ==> v == 0,
            i == 1 ==> v < 10,
            i == 2 ==> v < 100,
        decreases n - i,
    {
        let c = f[i];
        if c < '0' || c > '9' {
            return None;
        }
        proof {
            assert(f@.take(i + 1).drop_last() =~= f@.take(i as int));
        }
        v = v * 10 + (c as u32 - '0' as u32);
        i = i + 1;
    }
    assert(f@.take(n as int) =~= f@);
    if v > 255 {
        None
    } else {
        Some(v)
    }
}


/// The dotted-quad reading of `s`.
fn parse_v4(s: &Vec<char>) -> (r: Option<u32>)
    ensures
        r == parse_v4_spec(s@),
{
    let f = split_range(s, 0, s.len(), '.');
    assert(s@.subrange(0, s@.len() as int) =~= s@);
    let ghost fv = views_of(f@);
    if f.len() != 4 {
        return None;
    }
    assert(fv[0] == f@[0]@ && fv[1] == f@[1]@ && fv[2] == f@[2]@ && fv[3] == f@[3]@);
    let oa = octet_value(&f[0]);
    let ob = octet_value(&f[1]);
    let oc = octet_value(&f[2]);
    let od = octet_value(&f[3]);
    if oa.is_none() || ob.is_none() || oc.is_none() || od.is_none() {
        assert(!is_octet_text(fv[0]) || !is_octet_text(fv[1]) || !is_octet_text(fv[2])
            || !is_octet_text(fv[3]));
        return None;
    }
    let a = oa.unwrap();
    let b = ob.unwrap();
    let c = oc.unwrap();
    let d = od.unwrap();
    assert(is_octet_text(fv[0]) && is_octet_text(fv[1]) && is_octet_text(fv[2])
        && is_octet_text(fv[3]));
    assert(a == decimal_value(fv[0]) && b == decimal_value(fv[1]) && c == decimal_value(fv[2])
        && d == decimal_value(fv[3]));
    assert forall|i: int| 0 <= i < 4 implies is_octet_text(#[trigger] fv[i]) by {
        if i == 0 {
        } else if i == 1 {
        } else if i == 2 {
        } else {
        }
    }
    Some(a * 0x1000000 + b * 0x10000 + c * 0x100 + d)
}

pub open spec fn is_hex_digit(c: char) -> bool {
    ('0' <= c && c <= '9') || ('a' <= c && c <= 'f') || ('A' <= c && c <= 'F')
}

pub open spec fn hex_digit_value(c: char) -> int {
    if '0' <= c && c <= '9' {
        c as int - '0' as int
    } else if 'a' <= c && c <= 'f' {
        c as int - 'a' as int + 10
    } else {
        c as int - 'A' as int + 10
    }
}

/// The number that the hexadecimal digits `s` write.
pub open spec fn hex_value(s: Seq<char>) -> int
    decreases s.len(),
{
    if s.len() == 0 {
        0
    } else {
        hex_value(s.drop_last()) * 16 + hex_digit_value(s.last())
    }
}

/// One to four hexadecimal digits.
pub open spec fn is_group_text(s: Seq<char>) -> bool {
    &&& 1 <= s.len() <= 4
    &&& forall|i: int| 0 <= i < s.len() ==> is_hex_digit(#[trigger] s[i])
}

pub open spec fn all_group_texts(gs: Seq<Seq<char>>) -> bool {
    forall|i: int| 0 <= i < gs.len() ==> is_group_text(#[trigger] gs[i])
}

pub open spec fn group_values(gs: Seq<Seq<char>>) -> Seq<int> {
    gs.map_values(|g: Seq<char>| hex_value(g))
}

/// The number whose base-65536 digits are `vs`, most significant first.
pub open spec fn from_groups(vs: Seq<int>) -> int
    decreases vs.len(),
{
    if vs.len() == 0 {
        0
    } else {
        from_groups(vs.drop_last()) * 0x10000 + vs.last()
    }
}

/// The colon-separated groups of `s`; none when `s` is empty.
pub open spec fn groups_of(s: Seq<char>) -> Seq<Seq<char>> {
    if s.len() == 0 {
        Seq::empty()
    } else {
        split_on(s, ':')
    }
}

/// The first position at or after `from` where `::` starts, or -1.
pub open spec fn find_double_colon(s: Seq<char>, from: int) -> int
    decreases s.len() - from,
{
    if from < 0 || from + 1 >= s.len() {
        -1
    } else if s[from] == ':' && s[from + 1] == ':' {
        from
    } else {
        find_double_colon(s, from + 1)
    }
}

/// The values of the last groups of an address: hexadecimal groups, of which
/// the last may instead be a dotted quad that stands for two groups.
pub open spec fn tail_values(gs: Seq<Seq<char>>) -> Option<Seq<int>> {
    if gs.len() > 0 && parse_v4_spec(gs.last()) is Some && all_group_texts(gs.drop_last()) {
        let a = parse_v4_spec(gs.last())->0;
        Some(group_values(gs.drop_last()) + seq![a as int / 0x10000, a as int % 0x10000])
    } else if all_group_texts(gs) {
        Some(group_values(gs))
    } else {
        None
    }
}

/// The reading of `s` as eight colon-separated groups of hexadecimal digits,
/// where one `::` may stand for a run of zero groups and the last two groups
/// may be written as a dotted quad.
pub open spec fn parse_v6_spec(s: Seq<char>) -> Option<u128> {
    let k = find_double_colon(s, 0);
    if k < 0 {
        match tail_values(split_on(s, ':')) {
            Some(v) => if v.len() == 8 {
                Some(from_groups(v) as u128)
            } else {
                None
            },
            None => None,
        }
    } else {
        let l = groups_of(s.take(k));
        match tail_values(groups_of(s.skip(k + 2))) {
            Some(rv) => if all_group_texts(l) && l.len() + rv.len() <= 7 {
                Some(
                    from_groups(
                        group_values(l) + Seq::new((8 - l.len() - rv.len()) as nat, |i: int| 0int)
                            + rv,
                    ) as u128,
                )
            } else {
                None
            },
            None => None,
        }
    }
}

/// The value of the group text `f`, if it is one.
fn group_value(f: &Vec<char>) -> (r: Option<u16>)
    ensures
        r == (if is_group_text(f@) { Some(hex_value(f@) as u16) } else { None::<u16> }),
        is_group_text(f@) ==> 0 <= hex_value(f@) < 0x10000,
{
    let n = f.len();
    if n < 1 || n > 4 {
        return None;
    }
    let mut v: u32 = 0;
    let mut i: usize = 0;
    while i < n
        invariant
            n == f@.len(),
            1 <= n <= 4,
            i <= n,
            forall|j: int| 0 <= j < i ==> is_hex_digit(#[trigger] f@[j]),
            v == hex_value(f@.take(i as int)),
            i == 0 ==> v == 0,
            i == 1 ==> v < 0x10,
            i == 2 ==> v < 0x100,
            i == 3 ==> v < 0x1000,
            i == 4 ==> v < 0x10000,
        decreases n - i,
    {
        let c = f[i];
        let d: u32;
        if '0' <= c && c <= '9' {
            d = c as u32 - '0' as u32;
        } else if 'a' <= c && c <= 'f' {
            d = c as u32 - 'a' as u32 + 10;
        } else if 'A' <= c && c <= 'F' {
            d = c as u32 - 'A' as u32 + 10;
        } else {
            return None;
        }
        assert(f@.take(i + 1).drop_last() =~= f@.take(i as int));
        v = v * 16 + d;
        i = i + 1;
    }
    assert(f@.take(n as int) =~= f@);
    Some(v as u16)
}

/// The values of the first `count` group texts of `fields`, if each is one.
fn group_list(fields: &Vec<Vec<char>>, count: usize) -> (r: Option<Vec<u16>>)
    requires
        count <= fields@.len(),
    ensures
        r is Some <==> all_group_texts(views_of(fields@).take(count as int)),
        r matches Some(v) ==> as_ints(v@) == group_values(views_of(fields@).take(count as int)),
{
    let ghost fv = views_of(fields@).take(count as int);
    let mut out: Vec<u16> = Vec::new();
    let mut i: usize = 0;
    while i < count
        invariant
            i <= count <= fields@.len(),
            fv == views_of(fields@).take(count as int),
            forall|j: int| 0 <= j < i ==> is_group_text(#[trigger] fv[j]),
            as_ints(out@) == group_values(fv).take(i as int),
        decreases count - i,
    {
        assert(fv[i as int] == fields@[i as int]@);
        match group_value(&fields[i]) {
            Some(g) => {
                assert(is_group_text(fv[i as int]));
                assert(g as int == hex_value(fv[i as int]));
                assert(group_values(fv)[i as int] == hex_value(fv[i as int]));
                let ghost prev = out@;
                out.push(g);
                assert(out@ == prev.push(g));
                assert(as_ints(out@) =~= as_ints(prev).push(g as int));
                assert(group_values(fv).take(i + 1) =~= group_values(fv).take(i as int).push(
                    hex_value(fv[i as int]),
                ));
                assert(as_ints(out@) =~= group_values(fv).take(i + 1));
            },
            None => {
                return None;
            },
        }
        i = i + 1;
    }
    assert(group_values(fv).take(i as int) =~= group_values(fv));
    Some(out)
}

pub open spec fn as_ints(v: Seq<u16>) -> Seq<int> {
    v.map_values(|x: u16| x as int)
}

/// 65536 to the power `n`.
pub open spec fn radix_pow(n: nat) -> int
    decreases n,
{
    if n == 0 {
        1
    } else {
        radix_pow((n - 1) as nat) * 0x10000
    }
}

proof fn lemma_radix_pow_le(n: nat)
    requires
        n <= 8,
    ensures
        radix_pow(n) <= radix_pow(8),
    decreases 8 - n,
{
    if n < 8 {
        lemma_radix_pow_le(n + 1);
        assert(radix_pow(n + 1) == radix_pow(n) * 0x10000);
        lemma_radix_pow_pos(n);
    }
}

proof fn lemma_radix_pow_pos(n: nat)
    ensures
        radix_pow(n) >= 1,
    decreases n,
{
    if n > 0 {
        lemma_radix_pow_pos((n - 1) as nat);
    }
}

/// The 128-bit number whose eight 16-bit groups are `vs`.
fn join_groups(vs: &Vec<u16>) -> (r: u128)
    requires
        vs@.len() == 8,
    ensures
        r == from_groups(as_ints(vs@)),
{
    let mut acc: u128 = 0;
    let mut i: usize = 0;
    assert(radix_pow(8) == 0x1_0000_0000_0000_0000_0000_0000_0000_0000) by {
        reveal_with_fuel(radix_pow, 9);
    }
    while i < 8
        invariant
            vs@.len() == 8,
            i <= 8,
            acc == from_groups(as_ints(vs@).take(i as int)),
            acc < radix_pow(i as nat),
            radix_pow(8) == 0x1_0000_0000_0000_0000_0000_0000_0000_0000,
        decreases 8 - i,
    {
        let g = vs[i];
        proof {
            lemma_radix_pow_le((i + 1) as nat);
            let r = radix_pow(i as nat);
            assert(acc * 0x10000 + g < r * 0x10000) by (nonlinear_arith)
                requires
                    acc < r,
                    g < 0x10000,
            ;
            assert(as_ints(vs@).take(i + 1).drop_last() =~= as_ints(vs@).take(i as int));
        }
        acc = acc * 0x10000 + g as u128;
        i = i + 1;
    }
    assert(as_ints(vs@).take(8) =~= as_ints(vs@));
    acc
}


/// The values of the last groups of an address, `tail_values` of `fields`.
fn tail_list(fields: &Vec<Vec<char>>) -> (r: Option<Vec<u16>>)
    ensures
        match tail_values(views_of(fields@)) {
            Some(v) => r matches Some(out) && as_ints(out@) == v,
            None => r is None,
        },
{
    let ghost fv = views_of(fields@);
    let n = fields.len();
    assert(fv.take(n as int) =~= fv);
    if n > 0 {
        assert(fv.last() == fields@[n - 1]@);
        assert(fv.drop_last() =~= fv.take(n - 1));
        match parse_v4(&fields[n - 1]) {
            Some(a) => {
                match group_list(fields, n - 1) {
                    Some(out) => {
                        let mut out = out;
                        let ghost prev = out@;
                        out.push((a / 0x10000) as u16);
                        out.push((a % 0x10000) as u16);
                        assert(as_ints(out@) =~= as_ints(prev) + seq![a as int / 0x10000, a as int % 0x10000]);
                        return Some(out);
                    },
                    None => {},
                }
            },
            None => {},
        }
    }
    group_list(fields, n)
}

/// The first position where `::` starts in `s`, if any.
fn find_double_colon_exec(s: &Vec<char>) -> (r: Option<usize>)
    ensures
        match r {
            Some(k) => find_double_colon(s@, 0) == k && k + 2 <= s@.len(),
            None => find_double_colon(s@, 0) < 0,
        },
{
    let mut i: usize = 0;
    while i < s.len() && s.len() - i > 1
        invariant
            i <= s@.len(),
            find_double_colon(s@, 0) == find_double_colon(s@, i as int),
        decreases s.len() - i,
    {
        if s[i] == ':' && s[i + 1] == ':' {
            return Some(i);
        }
        i = i + 1;
    }
    None
}

/// The colon-separated groups of `s[lo..hi]`; none when the range is empty.
fn groups_in_range(s: &Vec<char>, lo: usize, hi: usize) -> (r: Vec<Vec<char>>)
    requires
        lo <= hi <= s@.len(),
    ensures
        views_of(r@) == groups_of(s@.subrange(lo as int, hi as int)),
{
    if lo == hi {
        let r: Vec<Vec<char>> = Vec::new();
        assert(views_of(r@) =~= Seq::<Seq<char>>::empty());
        r
    } else {
        split_range(s, lo, hi, ':')
    }
}

/// Appends the groups `src` to `out`.
fn append_groups(out: &mut Vec<u16>, src: &Vec<u16>)
    ensures
        as_ints(final(out)@) == as_ints(old(out)@) + as_ints(src@),
{
    let ghost start = out@;
    let mut i: usize = 0;
    while i < src.len()
        invariant
            i <= src@.len(),
            as_ints(out@) == as_ints(start) + as_ints(src@).take(i as int),
        decreases src.len() - i,
    {
        let ghost prev = out@;
        out.push(src[i]);
        assert(as_ints(out@) =~= as_ints(prev).push(src@[i as int] as int));
        assert(as_ints(src@).take(i + 1) =~= as_ints(src@).take(i as int).push(
            src@[i as int] as int,
        ));
        assert(as_ints(out@) =~= as_ints(start) + as_ints(src@).take(i + 1));
        i = i + 1;
    }
    assert(as_ints(src@).take(i as int) =~= as_ints(src@));
}

/// The reading of `s` as a version 6 address.
fn parse_v6(s: &Vec<char>) -> (r: Option<u128>)
    ensures
        r == parse_v6_spec(s@),
{
    assert(s@.subrange(0, s@.len() as int) =~= s@);
    let found = find_double_colon_exec(s);
    match found {
        None => {
            let f = split_range(s, 0, s.len(), ':');
            match tail_list(&f) {
                Some(v) => if v.len() == 8 {
                    Some(join_groups(&v))
                } else {
                    None
                },
                None => None,
            }
        },
        Some(k) => {
            let n = s.len();
            let l = groups_in_range(s, 0, k);
            let r = groups_in_range(s, k + 2, n);
            assert(s@.subrange(0, k as int) =~= s@.take(k as int));
            assert(s@.subrange(k + 2, s@.len() as int) =~= s@.skip(k + 2));
            assert(views_of(l@).take(l@.len() as int) =~= views_of(l@));
            let gl = group_list(&l, l.len());
            let gr = tail_list(&r);
            if gl.is_none() || gr.is_none() {
                return None;
            }
            let gl = gl.unwrap();
            let gr = gr.unwrap();
            if l.len() > 7 || gr.len() > 7 - l.len() {
                return None;
            }
            let mut all: Vec<u16> = Vec::new();
            append_groups(&mut all, &gl);
            let zeros: usize = 8 - l.len() - gr.len();
            let ghost with_left = all@;
            let mut j: usize = 0;
            while j < zeros
                invariant
                    j <= zeros,
                    as_ints(all@) == as_ints(with_left) + Seq::new(j as nat, |i: int| 0int),
                decreases zeros - j,
            {
                let ghost prev = all@;
                all.push(0);
                assert(as_ints(all@) =~= as_ints(prev).push(0));
                assert(as_ints(all@) =~= as_ints(with_left) + Seq::new((j + 1) as nat, |i: int| 0int));
                j = j + 1;
            }
            append_groups(&mut all, &gr);
            assert(as_ints(all@).len() == 8);
            Some(join_groups(&all))
        },
    }
}

/// The address that `s` writes, in dotted-quad form for version 4 or in
/// colon-separated groups for version 6.
pub open spec fn parse_ip_spec(s: Seq<char>) -> Option<IpAddress> {
    match parse_v4_spec(s) {
        Some(a) => Some(IpAddress::V4(a)),
        None => match parse_v6_spec(s) {
            Some(b) => Some(IpAddress::V6(b)),
            None => None,
        },
    }
}

impl IpAddress {
    /// Reads an address from its text; `None` where `s` writes none.
    pub fn parse(s: &str) -> (r: Option<IpAddress>)
        ensures
            r == parse_ip_spec(s@),
    {
        let cs = crate::text::chars_of(s);
        parse_ip_chars(&cs)
    }
}

fn parse_ip_chars(cs: &Vec<char>) -> (r: Option<IpAddress>)
    ensures
        r == parse_ip_spec(cs@),
{
    match parse_v4(cs) {
        Some(a) => Some(IpAddress::V4(a)),
        None => match parse_v6(cs) {
            Some(b) => Some(IpAddress::V6(b)),
            None => None,
        },
    }
}

/// The number of bits in an address of this version.
pub open spec fn width(a: IpAddress) -> int {
    match a {
        IpAddress::V4(_) => 32,
        IpAddress::V6(_) => 128,
    }
}

/// A network: the addresses of one version whose first `prefix` bits
/// agree with those of `addr`.
#[derive(Clone, Copy, Debug, PartialEq, Eq, Structural)]
pub struct IpNet {
    pub addr: IpAddress,
    pub prefix: u8,
}

/// Whether `ip` lies in `net`: same version, and the leading `net.prefix`
/// bits agree.
pub open spec fn net_contains(net: IpNet, ip: IpAddress) -> bool {
    match (net.addr, ip) {
        (IpAddress::V4(n), IpAddress::V4(a)) => net.prefix == 0 || (n >> ((32 - net.prefix) as u32))
            == (a >> ((32 - net.prefix) as u32)),
        (IpAddress::V6(n), IpAddress::V6(a)) => net.prefix == 0 || (n >> ((128 - net.prefix) as u32))
            == (a >> ((128 - net.prefix) as u32)),
        _ => false,
    }
}

/// The network that `s` writes: an address, alone (every bit significant) or
/// followed by `/` and a prefix length of at most its width, in decimal without
/// a leading zero.
pub open spec fn parse_net_spec(s: Seq<char>) -> Option<IpNet> {
    let f = split_on(s, '/');
    if f.len() == 1 {
        match parse_ip_spec(s) {
            Some(a) => Some(IpNet { addr: a, prefix: width(a) as u8 }),
            None => None,
        }
    } else if f.len() == 2 {
        match parse_ip_spec(f[0]) {
            Some(a) => if is_octet_text(f[1]) && decimal_value(f[1]) <= width(a) {
                Some(IpNet { addr: a, prefix: decimal_value(f[1]) as u8 })
            } else {
                None
            },
            None => None,
        }
    } else {
        None
    }
}

impl IpNet {
    /// The prefix length does not exceed the address's width.
    pub open spec fn wf(&self) -> bool {
        self.prefix <= width(self.addr)
    }

    /// The network of `prefix` leading bits of `addr`; `None` where `prefix`
    /// exceeds the address's width.
    pub fn new(addr: IpAddress, prefix: u8) -> (r: Option<IpNet>)
        ensures
            r == (if prefix <= width(addr) { Some(IpNet { addr, prefix }) } else { None::<IpNet> }),
    {
        let w: u8 = match addr {
            IpAddress::V4(_) => 32,
            IpAddress::V6(_) => 128,
        };
        if prefix <= w {
            Some(IpNet { addr, prefix })
        } else {
            None
        }
    }

    /// The network that holds `addr` alone.
    pub fn host(addr: IpAddress) -> (r: IpNet)
        ensures
            r == (IpNet { addr, prefix: width(addr) as u8 }),
            r.wf(),
    {
        match addr {
            IpAddress::V4(_) => IpNet { addr, prefix: 32 },
            IpAddress::V6(_) => IpNet { addr, prefix: 128 },
        }
    }

    /// Whether `ip` lies in this network.
    pub fn contains(&self, ip: IpAddress) -> (r: bool)
        requires
            self.wf(),
        ensures
            r == net_contains(*self, ip),
    {
        if self.prefix == 0 {
            return match (self.addr, ip) {
                (IpAddress::V4(_), IpAddress::V4(_)) => true,
                (IpAddress::V6(_), IpAddress::V6(_)) => true,
                _ => false,
            };
        }
        match (self.addr, ip) {
            (IpAddress::V4(n), IpAddress::V4(a)) => {
                let shift: u32 = 32 - self.prefix as u32;
                (n >> shift) == (a >> shift)
            },
            (IpAddress::V6(n), IpAddress::V6(a)) => {
                let shift: u32 = 128 - self.prefix as u32;
                (n >> shift) == (a >> shift)
            },
            _ => false,
        }
    }

    /// Reads a network from its text; `None` where `s` writes none.
    pub fn parse(s: &str) -> (r: Option<IpNet>)
        ensures
            r == parse_net_spec(s@),
            r matches Some(n) ==> n.wf(),
    {
        let cs = crate::text::chars_of(s);
        let f = split_range(&cs, 0, cs.len(), '/');
        assert(cs@.subrange(0, cs@.len() as int) =~= cs@);
        let ghost fv = views_of(f@);
        if f.len() == 1 {
            match parse_ip_chars(&cs) {
                Some(a) => Some(IpNet::host(a)),
                None => None,
            }
        } else if f.len() == 2 {
            assert(fv[0] == f@[0]@ && fv[1] == f@[1]@);
            match parse_ip_chars(&f[0]) {
                Some(a) => match octet_value(&f[1]) {
                    Some(p) => {
                        let h = IpNet::host(a);
                        if p <= h.prefix as u32 {
                            Some(IpNet { addr: a, prefix: p as u8 })
                        } else {
                            None
                        }
                    },
                    None => None,
                },
                None => None,
            }
        } else {
            None
        }
    }
}

} // verus!
