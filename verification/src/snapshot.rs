//! The metrics record a host produces on each tick.

use crate::outside::duration_text;
use crate::outside::format_seconds;
use vstd::prelude::*;

verus! {

/// What a host says of itself when a fact cannot be found out.
pub open spec fn unknown() -> Seq<char> {
    "unknown"@
}

/// The value of full usage: 100 percent in hundredths of a percent.
pub const FULL_USAGE: u32 = 10_000;

/// The facts about a host that stay the same while a connection lasts.
#[derive(Clone, Debug, PartialEq, Eq)]
pub struct HostFacts {
    pub os: String,
    pub kernel: String,
    pub host_name: String,
    pub local_ip: String,
}

/// The counters read afresh on each tick. `cpu_usage_bits` is the bit
/// pattern of the single-precision percentage the provider reports.
#[derive(Clone, Copy, Debug, PartialEq, Eq)]
pub struct TickReadings {
    pub uptime: u64,
    pub used_memory: u64,
    pub free_memory: u64,
    pub total_memory: u64,
    pub cpu_usage_bits: u32,
}

/// The record of one tick: the host's facts and its counters at that moment.
#[derive(Clone, Debug, PartialEq, Eq)]
pub struct MetricsSnapshot {
    pub os: String,
    pub kernel: String,
    pub host_name: String,
    pub local_ip: String,
    pub uptime: u64,
    pub used_memory: u64,
    pub free_memory: u64,
    pub total_memory: u64,
    pub cpu_usage_bits: u32,
}

/// A snapshot as a plain value.
pub ghost struct SnapshotView {
    pub os: Seq<char>,
    pub kernel: Seq<char>,
    pub host_name: Seq<char>,
    pub local_ip: Seq<char>,
    pub uptime: u64,
    pub used_memory: u64,
    pub free_memory: u64,
    pub total_memory: u64,
    pub cpu_usage_bits: u32,
}

impl View for MetricsSnapshot {
    type V = SnapshotView;

    open spec fn view(&self) -> SnapshotView {
        SnapshotView {
            os: self.os@,
            kernel: self.kernel@,
            host_name: self.host_name@,
            local_ip: self.local_ip@,
            uptime: self.uptime,
            used_memory: self.used_memory,
            free_memory: self.free_memory,
            total_memory: self.total_memory,
            cpu_usage_bits: self.cpu_usage_bits,
        }
    }
}

/// A host's facts as a plain value.
pub ghost struct FactsView {
    pub os: Seq<char>,
    pub kernel: Seq<char>,
    pub host_name: Seq<char>,
    pub local_ip: Seq<char>,
}

impl View for HostFacts {
    type V = FactsView;

    open spec fn view(&self) -> FactsView {
        FactsView {
            os: self.os@,
            kernel: self.kernel@,
            host_name: self.host_name@,
            local_ip: self.local_ip@,
        }
    }
}

/// The snapshot that joins a host's facts with the readings of one tick.
pub open spec fn assembled(facts: FactsView, readings: TickReadings) -> SnapshotView {
    SnapshotView {
        os: facts.os,
        kernel: facts.kernel,
        host_name: facts.host_name,
        local_ip: facts.local_ip,
        uptime: readings.uptime,
        used_memory: readings.used_memory,
        free_memory: readings.free_memory,
        total_memory: readings.total_memory,
        cpu_usage_bits: readings.cpu_usage_bits,
    }
}

/// The text a fact is reported as: itself where the provider found it, the
/// sentinel where it did not.
pub open spec fn reported(fact: Option<String>) -> Seq<char> {
    match fact {
        Some(text) => text@,
        None => unknown(),
    }
}

/// Memory in use as a share of all memory, in hundredths of a percent and
/// rounded down. There is no such share where the total is zero or smaller
/// than what is said to be in use.
pub open spec fn usage_of(used: u64, total: u64) -> Option<u32> {
    if total == 0 || used > total {
        None
    } else {
        Some((used * FULL_USAGE / (total as int)) as u32)
    }
}

fn or_unknown(fact: Option<String>) -> (text: String)
    ensures
        text@ == reported(fact),
{
    match fact {
        Some(text) => text,
        None => "unknown".to_owned(),
    }
}

impl HostFacts {
    /// Settles the facts of a host from what the provider could find out. A
    /// fact it could not find is reported as `"unknown"`; no missing fact
    /// makes this fail.
    pub fn resolve(
        os: Option<String>,
        kernel: Option<String>,
        host_name: Option<String>,
        local_ip: Option<String>,
    ) -> (facts: Self)
        ensures
            facts.os@ == reported(os),
            facts.kernel@ == reported(kernel),
            facts.host_name@ == reported(host_name),
            facts.local_ip@ == reported(local_ip),
    {
        HostFacts {
            os: or_unknown(os),
            kernel: or_unknown(kernel),
            host_name: or_unknown(host_name),
            local_ip: or_unknown(local_ip),
        }
    }
}

impl MetricsSnapshot {
    /// The snapshot of one tick: the host's facts joined with fresh readings.
    pub fn assemble(facts: &HostFacts, readings: TickReadings) -> (snapshot: Self)
        ensures
            snapshot@ == assembled(facts@, readings),
    {
        MetricsSnapshot {
            os: facts.os.clone(),
            kernel: facts.kernel.clone(),
            host_name: facts.host_name.clone(),
            local_ip: facts.local_ip.clone(),
            uptime: readings.uptime,
            used_memory: readings.used_memory,
            free_memory: readings.free_memory,
            total_memory: readings.total_memory,
            cpu_usage_bits: readings.cpu_usage_bits,
        }
    }

    /// The host's uptime in words, such as `3days 5h 10m`.
    pub fn uptime_label(&self) -> (label: String)
        ensures
            label@ == duration_text(self.uptime),
    {
        format_seconds(self.uptime)
    }

    /// Memory in use as a share of all memory, in hundredths of a percent.
    pub fn memory_usage(&self) -> (usage: Option<u32>)
        ensures
            usage == usage_of(self.used_memory, self.total_memory),
            usage matches Some(share) ==> share <= FULL_USAGE,
    {
        let used: u64 = self.used_memory;
        let total: u64 = self.total_memory;
        if total == 0 || used > total {
            return None;
        }
        let scaled: u128 = (used as u128) * (FULL_USAGE as u128);
        let share: u128 = scaled / (total as u128);
        assert(share <= FULL_USAGE) by (nonlinear_arith)
            requires
                share == (used * FULL_USAGE) / (total as int),
                0 <= used <= total,
                total > 0,
                FULL_USAGE == 10_000,
        ;
        Some(share as u32)
    }
}

} // verus!
