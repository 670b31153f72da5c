use vstd::prelude::*;
use crate::geo::{GeoEntry, GeoError, GeoIndex, LocationRecord};
use crate::ip::{IpNet, decimal_value, is_digit, parse_net_spec};
use crate::text::{split_on, chars_of};

verus! {

/// The positions in `s` of the fields of `s[lo..hi]` between occurrences of
/// `sep`.
pub fn field_bounds(s: &Vec<char>, lo: usize, hi: usize, sep: char) -> (r: Vec<(usize, usize)>)
    requires
        lo <= hi <= s@.len(),
    ensures
        r@.len() == split_on(s@.subrange(lo as int, hi as int), sep).len(),
        forall|j: int|
            0 <= j < r@.len() ==> {
                &&& lo <= (#[trigger] r@[j]).0 <= r@[j].1 <= hi
                &&& s@.subrange(r@[j].0 as int, r@[j].1 as int) == split_on(
                    s@.subrange(lo as int, hi as int),
                    sep,
                )[j]
            },
{
    let mut out: Vec<(usize, usize)> = Vec::new();
    let mut st: usize = lo;
    let mut i: usize = lo;
    assert(s@.subrange(lo as int, lo as int) =~= Seq::<char>::empty());
    while i < hi
        invariant
            lo <= st <= i <= hi <= s@.len(),
            out@.len() + 1 == split_on(s@.subrange(lo as int, i as int), sep).len(),
            split_on(s@.subrange(lo as int, i as int), sep).last() == s@.subrange(st as int, i as int),
            forall|j: int|
                0 <= j < out@.len() ==> {
                    &&& lo <= (#[trigger] out@[j]).0 <= out@[j].1 <= st
                    &&& s@.subrange(out@[j].0 as int, out@[j].1 as int) == split_on(
                        s@.subrange(lo as int, i as int),
                        sep,
                    )[j]
                },
        decreases hi - i,
    {
        assert(s@.subrange(lo as int, i + 1).drop_last() =~= s@.subrange(lo as int, i as int));
        assert(s@.subrange(lo as int, i + 1).last() == s@[i as int]);
        if s[i] == sep {
            out.push((st, i));
            st = i + 1;
            assert(s@.subrange(st as int, i + 1) =~= Seq::<char>::empty());
        } else {
            assert(s@.subrange(st as int, i + 1) =~= s@.subrange(st as int, i as int).push(
                s@[i as int],
            ));
        }
        i = i + 1;
    }
    out.push((st, hi));
    out
}

/// One to nine decimal digits.
pub open spec fn is_short_number(s: Seq<char>) -> bool {
    &&& 1 <= s.len() <= 9
    &&& forall|i: int| 0 <= i < s.len() ==> is_digit(#[trigger] s[i])
}

/// The reading of a coordinate field: absent when empty, else a decimal
/// integer of at most nine digits with an optional leading minus sign.
/// `None` where the field is neither.
pub open spec fn coordinate_spec(f: Seq<char>) -> Option<Option<i32>> {
    if f.len() == 0 {
        Some(None)
    } else if f[0] == '-' {
        if is_short_number(f.drop_first()) {
            Some(Some((-decimal_value(f.drop_first())) as i32))
        } else {
            None
        }
    } else if is_short_number(f) {
        Some(Some(decimal_value(f) as i32))
    } else {
        None
    }
}

/// The value of the digits `s[a..b]` where they form a short number.
fn short_number(s: &Vec<char>, a: usize, b: usize) -> (r: Option<i32>)
    requires
        a <= b <= s@.len(),
    ensures
        r == (if is_short_number(s@.subrange(a as int, b as int)) {
            Some(decimal_value(s@.subrange(a as int, b as int)) as i32)
        } else {
            None::<i32>
        }),
        is_short_number(s@.subrange(a as int, b as int)) ==> 0 <= decimal_value(
            s@.subrange(a as int, b as int),
        ) < 1_000_000_000,
{
    if b - a < 1 || b - a > 9 {
        return None;
    }
    let ghost f = s@.subrange(a as int, b as int);
    let mut v: i32 = 0;
    let mut i: usize = a;
    proof {
        lemma_pow10_grows(0);
    }
    while i < b
        invariant
            a <= i <= b <= s@.len(),
            b - a <= 9,
            f == s@.subrange(a as int, b as int),
            forall|j: int| 0 <= j < i - a ==> is_digit(#[trigger] f[j]),
            v == decimal_value(f.take(i - a)),
            0 <= v < pow10((i - a) as nat),
            pow10((i - a) as nat) <= pow10(9),
            pow10(9) == 1_000_000_000,
        decreases b - i,
    {
        let c = s[i];
        if c < '0' || c > '9' {
            assert(!is_digit(f[i - a]));
            return None;
        }
        proof {
            assert(f.take(i - a + 1).drop_last() =~= f.take(i - a));
            lemma_pow10_grows((i - a + 1) as nat);
        }
        v = v * 10 + (c as i32 - '0' as i32);
        i = i + 1;
    }
    assert(f.take(i - a) =~= f);
    Some(v)
}

pub open spec fn pow10(n: nat) -> int
    decreases n,
{
    if n == 0 {
        1
    } else {
        pow10((n - 1) as nat) * 10
    }
}

proof fn lemma_pow10_grows(n: nat)
    requires
        n <= 9,
    ensures
        pow10(n) <= pow10(9),
        pow10(9) == 1_000_000_000,
    decreases 9 - n,
{
    reveal_with_fuel(pow10, 10);
    if n < 9 {
        lemma_pow10_grows(n + 1);
    }
}

/// The coordinate that the field `s[a..b]` writes.
fn coordinate(s: &Vec<char>, a: usize, b: usize) -> (r: Option<Option<i32>>)
    requires
        a <= b <= s@.len(),
    ensures
        r == coordinate_spec(s@.subrange(a as int, b as int)),
{
    let ghost f = s@.subrange(a as int, b as int);
    if a == b {
        return Some(None);
    }
    if s[a] == '-' {
        assert(f.drop_first() =~= s@.subrange(a + 1, b as int));
        match short_number(s, a + 1, b) {
            Some(v) => Some(Some(-v)),
            None => None,
        }
    } else {
        match short_number(s, a, b) {
            Some(v) => Some(Some(v)),
            None => None,
        }
    }
}

/// The text of `s[a..b]`, absent when empty.
fn text_field(line: &str, a: usize, b: usize) -> (r: Option<String>)
    requires
        a <= b <= line@.len(),
    ensures
        opt_text(r) == (if a == b { None::<Seq<char>> } else { Some(line@.subrange(a as int, b as int)) }),
{
    if a == b {
        None
    } else {
        Some(line.substring_char(a, b).to_owned())
    }
}

pub open spec fn opt_text(o: Option<String>) -> Option<Seq<char>> {
    match o {
        Some(s) => Some(s@),
        None => None,
    }
}


/// The text of a field, absent when empty.
pub open spec fn text_or_absent(f: Seq<char>) -> Option<Seq<char>> {
    if f.len() == 0 {
        None
    } else {
        Some(f)
    }
}

/// `line` is a dataset record: seven comma-separated fields, of which the
/// first writes a network and the fifth and sixth are coordinates.
pub open spec fn is_record(line: Seq<char>) -> bool {
    let f = split_on(line, ',');
    &&& f.len() == 7
    &&& parse_net_spec(f[0]) is Some
    &&& coordinate_spec(f[4]) is Some
    &&& coordinate_spec(f[5]) is Some
}

/// `e` holds what the record `line` states: network, country code, region
/// code, city, latitude, longitude and time zone, in that order.
pub open spec fn entry_of(e: GeoEntry, line: Seq<char>) -> bool {
    let f = split_on(line, ',');
    &&& e.network == parse_net_spec(f[0])->0
    &&& opt_text(e.location.country_code) == text_or_absent(f[1])
    &&& opt_text(e.location.region_code) == text_or_absent(f[2])
    &&& opt_text(e.location.city) == text_or_absent(f[3])
    &&& e.location.latitude == coordinate_spec(f[4])->0
    &&& e.location.longitude == coordinate_spec(f[5])->0
    &&& opt_text(e.location.time_zone) == text_or_absent(f[6])
}

/// Reads one dataset record; `None` where `line` is not one.
pub fn parse_record(line: &str) -> (r: Option<GeoEntry>)
    ensures
        r is Some <==> is_record(line@),
        r matches Some(e) ==> entry_of(e, line@) && e.network.wf(),
{
    let cs = chars_of(line);
    let n = cs.len();
    let b = field_bounds(&cs, 0, n, ',');
    assert(cs@.subrange(0, n as int) =~= line@);
    let ghost f = split_on(line@, ',');
    if b.len() != 7 {
        return None;
    }
    let network = match IpNet::parse(line.substring_char(b[0].0, b[0].1)) {
        Some(net) => net,
        None => {
            assert(f[0] == cs@.subrange(b@[0].0 as int, b@[0].1 as int));
            return None;
        },
    };
    let latitude = match coordinate(&cs, b[4].0, b[4].1) {
        Some(c) => c,
        None => {
            assert(f[4] == cs@.subrange(b@[4].0 as int, b@[4].1 as int));
            return None;
        },
    };
    let longitude = match coordinate(&cs, b[5].0, b[5].1) {
        Some(c) => c,
        None => {
            assert(f[5] == cs@.subrange(b@[5].0 as int, b@[5].1 as int));
            return None;
        },
    };
    let country_code = text_field(line, b[1].0, b[1].1);
    let region_code = text_field(line, b[2].0, b[2].1);
    let city = text_field(line, b[3].0, b[3].1);
    let time_zone = text_field(line, b[6].0, b[6].1);
    let e = GeoEntry {
        network,
        location: LocationRecord { country_code, region_code, city, latitude, longitude, time_zone },
    };
    assert(forall|j: int| 0 <= j < 7 ==> f[j] == cs@.subrange(b@[j].0 as int, b@[j].1 as int));
    assert(f[0] == cs@.subrange(b@[0].0 as int, b@[0].1 as int));
    assert(f[4] == cs@.subrange(b@[4].0 as int, b@[4].1 as int));
    assert(f[5] == cs@.subrange(b@[5].0 as int, b@[5].1 as int));
    assert(forall|j: int| 0 <= j < 7 ==> (f[j].len() == 0 <==> b@[j].0 == b@[j].1));
    Some(e)
}

/// Why a dataset could not be read.
#[derive(Clone, Copy, Debug, PartialEq, Eq, Structural)]
pub enum DatasetError {
    /// The line at this position (from zero) is not a record.
    BadRecord(usize),
}

/// Builds the index from the dataset's records, one per line, in order;
/// fails on the first line that is not a record.
pub fn load_dataset(lines: &Vec<String>) -> (r: Result<GeoIndex, DatasetError>)
    ensures
        match r {
            Ok(idx) => {
                &&& idx.wf()
                &&& idx.entries().len() == lines@.len()
                &&& forall|i: int| 0 <= i < lines@.len() ==> entry_of(#[trigger] idx.entries()[i], lines@[i]@)
            },
            Err(DatasetError::BadRecord(i)) => {
                &&& i < lines@.len()
                &&& !is_record(lines@[i as int]@)
                &&& forall|j: int| 0 <= j < i ==> is_record(#[trigger] lines@[j]@)
            },
        },
{
    let mut entries: Vec<GeoEntry> = Vec::new();
    let mut i: usize = 0;
    while i < lines.len()
        invariant
            i <= lines@.len(),
            entries@.len() == i,
            forall|j: int| 0 <= j < i ==> is_record(#[trigger] lines@[j]@),
            forall|j: int| 0 <= j < i ==> entry_of(#[trigger] entries@[j], lines@[j]@),
            forall|j: int| 0 <= j < i ==> (#[trigger] entries@[j]).network.wf(),
        decreases lines.len() - i,
    {
        match parse_record(lines[i].as_str()) {
            Some(e) => {
                entries.push(e);
            },
            None => {
                return Err(DatasetError::BadRecord(i));
            },
        }
        i = i + 1;
    }
    let ghost given = entries@;
    match GeoIndex::new(entries) {
        Ok(idx) => Ok(idx),
        Err(GeoError::InvalidNetwork(k)) => {
            assert(given[k as int].network.wf());
            Err(DatasetError::BadRecord(k))
        },
    }
}

} // verus!
