//! Network devices and their counters.
use vstd::prelude::*;

use crate::clock::now_millis;
use crate::error::Result;

verus! {

/// One reading of an interface's counters.
#[derive(Debug, Clone, Copy, PartialEq, Eq)]
pub struct NetworkStats {
    /// When the reading was taken, in milliseconds since the Unix epoch.
    pub timestamp: u64,
    pub bytes_in: u64,
    pub bytes_out: u64,
    pub packets_in: u64,
    pub packets_out: u64,
    pub errors_in: u64,
    pub errors_out: u64,
    pub drops_in: u64,
    pub drops_out: u64,
}

impl NetworkStats {
    /// All counters zero, taken at time `timestamp`.
    pub open spec fn zero_at(timestamp: u64) -> NetworkStats {
        NetworkStats {
            timestamp,
            bytes_in: 0,
            bytes_out: 0,
            packets_in: 0,
            packets_out: 0,
            errors_in: 0,
            errors_out: 0,
            drops_in: 0,
            drops_out: 0,
        }
    }

    /// A reading with every counter at zero, stamped with the current time.
    pub fn new() -> (r: NetworkStats)
        ensures
            r == NetworkStats::zero_at(r.timestamp),
    {
        NetworkStats::at(now_millis())
    }

    /// A reading with every counter at zero, stamped `timestamp`.
    pub fn at(timestamp: u64) -> (r: NetworkStats)
        ensures
            r == NetworkStats::zero_at(timestamp),
    {
        NetworkStats {
            timestamp,
            bytes_in: 0,
            bytes_out: 0,
            packets_in: 0,
            packets_out: 0,
            errors_in: 0,
            errors_out: 0,
            drops_in: 0,
            drops_out: 0,
        }
    }
}

impl Default for NetworkStats {
    fn default() -> (r: NetworkStats)
        ensures
            r == NetworkStats::zero_at(r.timestamp),
    {
        NetworkStats::new()
    }
}

/// A source of interface counters, implemented once per platform (and by
/// users, e.g. for simulated data).
pub trait NetworkReader {
    fn list_devices(&self) -> Result<Vec<String>>;

    fn read_stats(&self, device: &str) -> Result<NetworkStats>;

    fn is_available(&self) -> bool;
}

/// A monitored interface with its latest reading.
#[derive(Debug, Clone)]
pub struct Device {
    pub name: String,
    pub stats: NetworkStats,
    /// Whether the latest attempt to read the interface succeeded.
    pub is_active: bool,
}

impl Device {
    /// A device not read yet: zero counters, inactive.
    pub fn new(name: String) -> (d: Device)
        ensures
            d.name == name,
            d.stats == NetworkStats::zero_at(d.stats.timestamp),
            !d.is_active,
    {
        Device { name, stats: NetworkStats::new(), is_active: false }
    }

    /// Takes in the outcome of reading the device: a reading replaces the
    /// stats and marks the device active; a failure marks it inactive,
    /// keeps the stats and is handed back.
    pub fn apply_reading(&mut self, reading: Result<NetworkStats>) -> (r: Result<()>)
        ensures
            final(self).name == old(self).name,
            match reading {
                Ok(s) => r is Ok && final(self).stats == s && final(self).is_active,
                Err(e) => r == Err::<(), _>(e) && final(self).stats == old(self).stats
                    && !final(self).is_active,
            },
    {
        match reading {
            Ok(stats) => {
                self.stats = stats;
                self.is_active = true;
                Ok(())
            },
            Err(e) => {
                self.is_active = false;
                Err(e)
            },
        }
    }

    /// Reads the device through `reader`, asking for the device's own
    /// name, and takes in the outcome (see `apply_reading`): what the
    /// reader answers is left to its implementation; a reading it gives
    /// becomes the stats, a failure it gives is handed back.
    pub fn update<R: NetworkReader>(&mut self, reader: &R) -> (r: Result<()>)
        ensures
            final(self).name == old(self).name,
            final(self).is_active <==> r is Ok,
            r is Err ==> final(self).stats == old(self).stats,
            exists|n: &str, s: Result<NetworkStats>|
                #![trigger call_ensures(R::read_stats, (reader, n), s)]
                n@ == old(self).name@ && call_ensures(R::read_stats, (reader, n), s) && match s {
                    Ok(x) => r is Ok && final(self).stats == x && final(self).is_active,
                    Err(e) => r == Err::<(), _>(e) && final(self).stats == old(self).stats
                        && !final(self).is_active,
                },
    {
        let name = self.name.as_str();
        let reading = reader.read_stats(name);
        let ghost n = name;
        let ghost s = reading;
        let r = self.apply_reading(reading);
        assert(n@ == old(self).name@ && call_ensures(R::read_stats, (reader, n), s));
        r
    }
}

} // verus!
