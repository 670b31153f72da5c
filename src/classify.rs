use vstd::prelude::*;
use crate::clock::UtcDateTime;
use crate::geo::{GeoIndex, LocationRecord, best_match};
use crate::ip::{IpAddress, IpNet};
use crate::proxy::{all_wf, forwarded_entries, resolve_header, resolve_spec};

verus! {

/// What a client is told of itself: its address, the time now, where the
/// dataset places it, and its do-not-track preference as it sent it.
#[derive(Clone, Debug)]
pub struct ClassificationResponse {
    pub client_ip: IpAddress,
    pub datetime: UtcDateTime,
    pub country_code: Option<String>,
    pub region_code: Option<String>,
    pub city: Option<String>,
    pub latitude: Option<i32>,
    pub longitude: Option<i32>,
    pub time_zone: Option<String>,
    pub do_not_track: Option<bool>,
}

/// The location fields of `r` are those of `location`, or all absent.
pub open spec fn shows_location(r: ClassificationResponse, location: Option<&LocationRecord>) -> bool {
    match location {
        Some(l) => {
            &&& r.country_code == l.country_code
            &&& r.region_code == l.region_code
            &&& r.city == l.city
            &&& r.latitude == l.latitude
            &&& r.longitude == l.longitude
            &&& r.time_zone == l.time_zone
        },
        None => {
            &&& r.country_code is None
            &&& r.region_code is None
            &&& r.city is None
            &&& r.latitude is None
            &&& r.longitude is None
            &&& r.time_zone is None
        },
    }
}

fn copy_text(t: &Option<String>) -> (r: Option<String>)
    ensures
        r == *t,
{
    match t {
        Some(s) => Some(s.clone()),
        None => None,
    }
}

/// The response for `ip` at `now_secs` seconds after the Unix epoch; where
/// the dataset knows no location, every location field is absent.
pub fn assemble(
    ip: IpAddress,
    location: Option<&LocationRecord>,
    now_secs: u64,
    do_not_track: Option<bool>,
) -> (r: ClassificationResponse)
    ensures
        r.client_ip == ip,
        r.datetime.wf(),
        r.datetime.unix_seconds() == now_secs,
        r.do_not_track == do_not_track,
        shows_location(r, location),
{
    let datetime = UtcDateTime::from_unix_seconds(now_secs);
    match location {
        Some(l) => ClassificationResponse {
            client_ip: ip,
            datetime,
            country_code: copy_text(&l.country_code),
            region_code: copy_text(&l.region_code),
            city: copy_text(&l.city),
            latitude: l.latitude,
            longitude: l.longitude,
            time_zone: copy_text(&l.time_zone),
            do_not_track,
        },
        None => ClassificationResponse {
            client_ip: ip,
            datetime,
            country_code: None,
            region_code: None,
            city: None,
            latitude: None,
            longitude: None,
            time_zone: None,
            do_not_track,
        },
    }
}


/// The client a request is attributed to: through its forwarded-address
/// header where it has one, else the transport peer.
pub open spec fn client_of(forwarded: Option<Seq<char>>, trusted: Seq<IpNet>, peer: IpAddress) -> IpAddress {
    match forwarded {
        Some(h) => resolve_spec(forwarded_entries(h), trusted, peer),
        None => peer,
    }
}

pub open spec fn text_view(t: Option<&str>) -> Option<Seq<char>> {
    match t {
        Some(s) => Some(s@),
        None => None,
    }
}

/// The do-not-track preference that a `DNT` header value states: `1` asks
/// not to be tracked, `0` allows it, and anything else states nothing.
pub fn parse_do_not_track(value: Option<&str>) -> (r: Option<bool>)
    ensures
        r == (match value {
            Some(v) => if v@ == seq!['1'] {
                Some(true)
            } else if v@ == seq!['0'] {
                Some(false)
            } else {
                None::<bool>
            },
            None => None::<bool>,
        }),
{
    match value {
        Some(v) => {
            let n = v.unicode_len();
            if n != 1 {
                proof {
                    assert(v@.len() != seq!['1'].len());
                }
                return None;
            }
            let c = v.get_char(0);
            if c == '1' {
                assert(v@ =~= seq!['1']);
                Some(true)
            } else if c == '0' {
                assert(v@ =~= seq!['0']);
                Some(false)
            } else {
                assert(v@ != seq!['1'] && v@ != seq!['0']) by {
                    assert(v@[0] == c);
                    assert(seq!['1'][0] == '1');
                    assert(seq!['0'][0] == '0');
                }
                None
            }
        },
        None => None,
    }
}

/// Answers one classification request: attributes it to a client, looks the
/// client up, and assembles the response. A client that the dataset does not
/// know gets a response with every location field absent, never an error.
pub fn classify(
    index: &GeoIndex,
    forwarded: Option<&str>,
    trusted: &Vec<IpNet>,
    peer: IpAddress,
    now_secs: u64,
    do_not_track: Option<bool>,
) -> (r: ClassificationResponse)
    requires
        index.wf(),
        all_wf(trusted@),
    ensures
        r.client_ip == client_of(text_view(forwarded), trusted@, peer),
        r.datetime.wf(),
        r.datetime.unix_seconds() == now_secs,
        r.do_not_track == do_not_track,
        match best_match(index.entries(), r.client_ip) {
            Some(k) => shows_location(r, Some(&index.entries()[k].location)),
            None => shows_location(r, None),
        },
{
    let ip = match forwarded {
        Some(h) => resolve_header(h, trusted, peer),
        None => peer,
    };
    let location = index.lookup(ip);
    assemble(ip, location, now_secs, do_not_track)
}

} // verus!
