use vstd::prelude::*;
use crate::ip::{IpAddress, IpNet, net_contains};

verus! {

/// What the geographic dataset knows of a network. Each field may be absent.
/// Coordinates are in millionths of a degree.
#[derive(Clone, Debug, PartialEq, Eq)]
pub struct LocationRecord {
    pub country_code: Option<String>,
    pub region_code: Option<String>,
    pub city: Option<String>,
    pub latitude: Option<i32>,
    pub longitude: Option<i32>,
    pub time_zone: Option<String>,
}

/// One network of the dataset with its location.
#[derive(Clone, Debug)]
pub struct GeoEntry {
    pub network: IpNet,
    pub location: LocationRecord,
}

/// Why a dataset cannot become an index.
#[derive(Clone, Copy, Debug, PartialEq, Eq, Structural)]
pub enum GeoError {
    /// The entry at this position has a prefix longer than its address.
    InvalidNetwork(usize),
}

/// The position of the entry that answers for `ip`: of the entries whose
/// network holds it, the one with the longest prefix, and of those the first.
pub open spec fn best_match(entries: Seq<GeoEntry>, ip: IpAddress) -> Option<int>
    decreases entries.len(),
{
    if entries.len() == 0 {
        None
    } else {
        let k = entries.len() - 1;
        let b = best_match(entries.drop_last(), ip);
        if net_contains(entries[k].network, ip) && (b is None || entries[k].network.prefix
            > entries[b->0].network.prefix) {
            Some(k)
        } else {
            b
        }
    }
}

/// A read-only index from addresses to locations.
pub struct GeoIndex {
    entries: Vec<GeoEntry>,
}

impl GeoIndex {
    /// The entries, in the order the dataset gave them.
    pub closed spec fn entries(&self) -> Seq<GeoEntry> {
        self.entries@
    }

    /// Every network of the index is well formed.
    pub open spec fn wf(&self) -> bool {
        forall|i: int| 0 <= i < self.entries().len() ==> (#[trigger] self.entries()[i]).network.wf()
    }

    /// Builds the index over `entries`; fails on the first entry whose network
    /// is not well formed.
    pub fn new(entries: Vec<GeoEntry>) -> (r: Result<GeoIndex, GeoError>)
        ensures
            match r {
                Ok(idx) => idx.entries() == entries@ && idx.wf(),
                Err(GeoError::InvalidNetwork(i)) => {
                    &&& i < entries@.len()
                    &&& !entries@[i as int].network.wf()
                    &&& forall|j: int| 0 <= j < i ==> (#[trigger] entries@[j]).network.wf()
                },
            },
    {
        let mut i: usize = 0;
        while i < entries.len()
            invariant
                i <= entries@.len(),
                forall|j: int| 0 <= j < i ==> (#[trigger] entries@[j]).network.wf(),
            decreases entries.len() - i,
        {
            let n = entries[i].network;
            let ok = match n.addr {
                IpAddress::V4(_) => n.prefix <= 32,
                IpAddress::V6(_) => n.prefix <= 128,
            };
            if !ok {
                return Err(GeoError::InvalidNetwork(i));
            }
            i = i + 1;
        }
        let ghost given = entries@;
        let idx = GeoIndex { entries };
        assert(idx.entries() == given);
        Ok(idx)
    }

    /// How many networks the index holds.
    pub fn len(&self) -> (r: usize)
        ensures
            r == self.entries().len(),
    {
        self.entries.len()
    }

    /// Whether the index is loaded with at least one network and can answer
    /// lookups.
    pub fn is_ready(&self) -> (r: bool)
        ensures
            r == (self.entries().len() > 0),
    {
        self.entries.len() > 0
    }

    /// The location that the dataset gives for `ip`, if any network of it
    /// holds `ip`: that of the most specific such network.
    pub fn lookup(&self, ip: IpAddress) -> (r: Option<&LocationRecord>)
        requires
            self.wf(),
        ensures
            match best_match(self.entries(), ip) {
                Some(k) => r == Some(&self.entries()[k].location),
                None => r is None,
            },
    {
        let mut best: Option<usize> = None;
        let mut i: usize = 0;
        while i < self.entries.len()
            invariant
                i <= self.entries@.len(),
                self.wf(),
                best_match(self.entries@.take(i as int), ip) == (match best {
                    Some(b) => Some(b as int),
                    None => None::<int>,
                }),
                best matches Some(b) ==> b < i,
            decreases self.entries.len() - i,
        {
            let ghost pre = self.entries@.take(i as int);
            assert(self.entries@.take(i + 1).drop_last() =~= pre);
            assert(self.entries@.take(i + 1)[i as int] == self.entries@[i as int]);
            let e = &self.entries[i];
            assert(e.network.wf());
            if e.network.contains(ip) {
                let better = match best {
                    None => true,
                    Some(b) => {
                        assert(self.entries@.take(i + 1)[b as int] == self.entries@[b as int]);
                        e.network.prefix > self.entries[b].network.prefix
                    },
                };
                if better {
                    best = Some(i);
                }
            }
            i = i + 1;
        }
        assert(self.entries@.take(i as int) =~= self.entries@);
        match best {
            Some(b) => Some(&self.entries[b].location),
            None => None,
        }
    }
}

} // verus!
