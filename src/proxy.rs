use vstd::prelude::*;
use crate::ip::{IpAddress, IpNet, net_contains, parse_ip_spec};
use crate::text::{split_on, trim_blank, is_blank, chars_of};

verus! {

/// The characters of each string of `v`.
pub open spec fn texts_of(v: Seq<String>) -> Seq<Seq<char>> {
    v.map_values(|s: String| s@)
}

/// The entries of a forwarded-address header: its comma-separated fields,
/// each without leading and trailing blanks.
pub open spec fn forwarded_entries(header: Seq<char>) -> Seq<Seq<char>> {
    split_on(header, ',').map_values(|f: Seq<char>| trim_blank(f))
}

/// Whether some network of `trusted` holds `ip`.
pub open spec fn is_trusted(ip: IpAddress, trusted: Seq<IpNet>) -> bool {
    exists|i: int| 0 <= i < trusted.len() && net_contains(#[trigger] trusted[i], ip)
}

pub open spec fn all_wf(trusted: Seq<IpNet>) -> bool {
    forall|i: int| 0 <= i < trusted.len() ==> (#[trigger] trusted[i]).wf()
}

/// The client that a chain of forwarded addresses is attributed to. The
/// chain is walked from its nearest (last) entry back: a trusted address
/// moves on to the entry before it, an untrusted one is the answer, and a
/// text that is no address ends the walk at the transport peer, as does
/// running out of entries.
pub open spec fn resolve_spec(chain: Seq<Seq<char>>, trusted: Seq<IpNet>, peer: IpAddress) -> IpAddress
    decreases chain.len(),
{
    if chain.len() == 0 {
        peer
    } else {
        match parse_ip_spec(chain.last()) {
            None => peer,
            Some(ip) => if is_trusted(ip, trusted) {
                resolve_spec(chain.drop_last(), trusted, peer)
            } else {
                ip
            },
        }
    }
}

/// Whether some network of `trusted` holds `ip`.
pub fn is_trusted_exec(ip: IpAddress, trusted: &Vec<IpNet>) -> (r: bool)
    requires
        all_wf(trusted@),
    ensures
        r == is_trusted(ip, trusted@),
{
    let mut i: usize = 0;
    while i < trusted.len()
        invariant
            i <= trusted@.len(),
            all_wf(trusted@),
            forall|j: int| 0 <= j < i ==> !net_contains(#[trigger] trusted@[j], ip),
        decreases trusted.len() - i,
    {
        if trusted[i].contains(ip) {
            return true;
        }
        i = i + 1;
    }
    false
}

/// The client that `chain` is attributed to, given the trusted proxy
/// networks and the address of the transport peer.
pub fn resolve(chain: &Vec<String>, trusted: &Vec<IpNet>, peer: IpAddress) -> (r: IpAddress)
    requires
        all_wf(trusted@),
    ensures
        r == resolve_spec(texts_of(chain@), trusted@, peer),
{
    let ghost full = texts_of(chain@);
    let mut i: usize = chain.len();
    assert(full.take(i as int) =~= full);
    while i > 0
        invariant
            i <= chain@.len(),
            full == texts_of(chain@),
            all_wf(trusted@),
            resolve_spec(full, trusted@, peer) == resolve_spec(full.take(i as int), trusted@, peer),
        decreases i,
    {
        let ghost cur = full.take(i as int);
        assert(cur.last() == chain@[i - 1]@);
        assert(cur.drop_last() =~= full.take(i - 1));
        match IpAddress::parse(chain[i - 1].as_str()) {
            None => {
                return peer;
            },
            Some(ip) => {
                if !is_trusted_exec(ip, trusted) {
                    return ip;
                }
            },
        }
        i = i - 1;
    }
    peer
}

/// The bounds of `s[st..en]` without its leading and trailing blanks.
fn trim_bounds(s: &Vec<char>, st: usize, en: usize) -> (r: (usize, usize))
    requires
        st <= en <= s@.len(),
    ensures
        st <= r.0 <= r.1 <= en,
        s@.subrange(r.0 as int, r.1 as int) == trim_blank(s@.subrange(st as int, en as int)),
{
    let mut a = st;
    let mut b = en;
    while a < b && (s[a] == ' ' || s[a] == '\t')
        invariant
            st <= a <= b == en <= s@.len(),
            trim_blank(s@.subrange(a as int, b as int)) == trim_blank(s@.subrange(st as int, en as int)),
        decreases b - a,
    {
        assert(s@.subrange(a as int, b as int).drop_first() =~= s@.subrange(a + 1, b as int));
        a = a + 1;
    }
    while a < b && (s[b - 1] == ' ' || s[b - 1] == '\t')
        invariant
            st <= a <= b <= en <= s@.len(),
            a < b ==> !is_blank(s@[a as int]),
            trim_blank(s@.subrange(a as int, b as int)) == trim_blank(s@.subrange(st as int, en as int)),
        decreases b - a,
    {
        assert(s@.subrange(a as int, b as int).drop_last() =~= s@.subrange(a as int, b - 1));
        b = b - 1;
    }
    (a, b)
}

/// The entries of a forwarded-address header, oldest hop first.
pub fn forwarded_chain(header: &str) -> (r: Vec<String>)
    ensures
        texts_of(r@) == forwarded_entries(header@),
{
    let cs = chars_of(header);
    let n = cs.len();
    let mut out: Vec<String> = Vec::new();
    let mut st: usize = 0;
    let mut i: usize = 0;
    assert(cs@.take(0) =~= Seq::<char>::empty());
    assert(cs@.subrange(0, 0) =~= Seq::<char>::empty());
    while i < n
        invariant
            n == cs@.len(),
            cs@ == header@,
            st <= i <= n,
            split_on(cs@.take(i as int), ',').len() >= 1,
            split_on(cs@.take(i as int), ',').last() == cs@.subrange(st as int, i as int),
            texts_of(out@) == split_on(cs@.take(i as int), ',').drop_last().map_values(
                |f: Seq<char>| trim_blank(f),
            ),
        decreases n - i,
    {
        let ghost before = split_on(cs@.take(i as int), ',');
        assert(cs@.take(i + 1).drop_last() =~= cs@.take(i as int));
        assert(cs@.take(i + 1).last() == cs@[i as int]);
        if cs[i] == ',' {
            let (a, b) = trim_bounds(&cs, st, i);
            let field = header.substring_char(a, b).to_owned();
            let ghost prev = out@;
            out.push(field);
            assert(texts_of(out@) =~= texts_of(prev).push(field@));
            let ghost after = before.push(Seq::<char>::empty());
            assert(after.drop_last() =~= before);
            assert(before =~= before.drop_last().push(before.last()));
            assert(texts_of(out@) =~= after.drop_last().map_values(|f: Seq<char>| trim_blank(f)));
            st = i + 1;
            assert(cs@.subrange(st as int, i + 1) =~= Seq::<char>::empty());
        } else {
            let ghost after = before.update(before.len() - 1, before.last().push(cs@[i as int]));
            assert(after.drop_last() =~= before.drop_last());
            assert(cs@.subrange(st as int, i + 1) =~= cs@.subrange(st as int, i as int).push(
                cs@[i as int],
            ));
        }
        i = i + 1;
    }
    let (a, b) = trim_bounds(&cs, st, n);
    let field = header.substring_char(a, b).to_owned();
    let ghost before = split_on(cs@.take(n as int), ',');
    let ghost prev = out@;
    out.push(field);
    assert(texts_of(out@) =~= texts_of(prev).push(field@));
    assert(before =~= before.drop_last().push(before.last()));
    assert(cs@.take(n as int) =~= cs@);
    assert(texts_of(out@) =~= before.map_values(|f: Seq<char>| trim_blank(f)));
    out
}

/// The client that a forwarded-address header is attributed to.
pub fn resolve_header(header: &str, trusted: &Vec<IpNet>, peer: IpAddress) -> (r: IpAddress)
    requires
        all_wf(trusted@),
    ensures
        r == resolve_spec(forwarded_entries(header@), trusted@, peer),
{
    let chain = forwarded_chain(header);
    resolve(&chain, trusted, peer)
}


/// Each entry of `tail` writes an address that `trusted` holds.
pub open spec fn all_trusted(tail: Seq<Seq<char>>, trusted: Seq<IpNet>) -> bool {
    forall|j: int| 0 <= j < tail.len() ==> writes_trusted(#[trigger] tail[j], trusted)
}

/// `e` writes an address that `trusted` holds.
pub open spec fn writes_trusted(e: Seq<char>, trusted: Seq<IpNet>) -> bool {
    match parse_ip_spec(e) {
        Some(ip) => is_trusted(ip, trusted),
        None => false,
    }
}

/// Where a chain ends in trusted entries and the entry before them writes an
/// untrusted address, that address is the client, whatever comes earlier.
pub proof fn lemma_first_untrusted_from_the_right(
    earlier: Seq<Seq<char>>,
    entry: Seq<char>,
    tail: Seq<Seq<char>>,
    trusted: Seq<IpNet>,
    peer: IpAddress,
)
    requires
        parse_ip_spec(entry) matches Some(ip) && !is_trusted(ip, trusted),
        all_trusted(tail, trusted),
    ensures
        resolve_spec(earlier.push(entry) + tail, trusted, peer) == parse_ip_spec(entry)->0,
    decreases tail.len(),
{
    let chain = earlier.push(entry) + tail;
    if tail.len() == 0 {
        assert(chain =~= earlier.push(entry));
    } else {
        let shorter = tail.drop_last();
        assert(chain.drop_last() =~= earlier.push(entry) + shorter);
        assert(chain.last() == tail[tail.len() - 1]);
        assert(writes_trusted(tail[tail.len() - 1], trusted));
        assert(all_trusted(shorter, trusted)) by {
            assert forall|j: int| 0 <= j < shorter.len() implies writes_trusted(#[trigger] shorter[j], trusted) by {
                assert(shorter[j] == tail[j]);
            }
        }
        lemma_first_untrusted_from_the_right(earlier, entry, shorter, trusted, peer);
    }
}

/// Where every entry of a chain (possibly none) writes a trusted address, the
/// client is the transport peer.
pub proof fn lemma_all_trusted_gives_peer(chain: Seq<Seq<char>>, trusted: Seq<IpNet>, peer: IpAddress)
    requires
        all_trusted(chain, trusted),
    ensures
        resolve_spec(chain, trusted, peer) == peer,
    decreases chain.len(),
{
    if chain.len() > 0 {
        let shorter = chain.drop_last();
        assert(writes_trusted(chain[chain.len() - 1], trusted));
        assert(all_trusted(shorter, trusted)) by {
            assert forall|j: int| 0 <= j < shorter.len() implies writes_trusted(#[trigger] shorter[j], trusted) by {
                assert(shorter[j] == chain[j]);
            }
        }
        lemma_all_trusted_gives_peer(shorter, trusted, peer);
    }
}

/// Resolution depends on its inputs alone: two resolutions of the same
/// chain, trusted networks and peer attribute the request to the same client.
pub proof fn lemma_resolution_deterministic(
    chain1: Seq<Seq<char>>,
    chain2: Seq<Seq<char>>,
    trusted1: Seq<IpNet>,
    trusted2: Seq<IpNet>,
    peer1: IpAddress,
    peer2: IpAddress,
)
    requires
        chain1 == chain2,
        trusted1 == trusted2,
        peer1 == peer2,
    ensures
        resolve_spec(chain1, trusted1, peer1) == resolve_spec(chain2, trusted2, peer2),
{
}

} // verus!
