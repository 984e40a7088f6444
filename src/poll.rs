//! The polling schedule of one session: five metric classes, each with its
//! own period, its remote command and its event names.
use vstd::prelude::*;

use crate::text::{decimal_chars, decimal_of, string_of};

verus! {

#[derive(Clone, Copy, Debug, PartialEq, Eq, Structural)]
pub enum MetricClass {
    Uptime,
    Memory,
    Cpu,
    Network,
    Disk,
}

/// Seconds between two polls of a class.
pub open spec fn period_of(c: MetricClass) -> u64 {
    match c {
        MetricClass::Uptime => 60,
        MetricClass::Memory => 5,
        MetricClass::Cpu => 2,
        MetricClass::Network => 1,
        MetricClass::Disk => 30,
    }
}

/// The position of a class when several are due at once.
pub open spec fn rank_of(c: MetricClass) -> int {
    match c {
        MetricClass::Uptime => 0,
        MetricClass::Memory => 1,
        MetricClass::Cpu => 2,
        MetricClass::Network => 3,
        MetricClass::Disk => 4,
    }
}

pub open spec fn command_text(c: MetricClass) -> Seq<char> {
    match c {
        MetricClass::Uptime => "uptime"@,
        MetricClass::Memory => "free -m"@,
        MetricClass::Cpu => "top -bn1 | grep 'Cpu(s)'"@,
        MetricClass::Network => "cat /proc/net/dev"@,
        MetricClass::Disk => "df -h --total"@,
    }
}

pub open spec fn class_name(c: MetricClass) -> Seq<char> {
    match c {
        MetricClass::Uptime => "uptime"@,
        MetricClass::Memory => "memory"@,
        MetricClass::Cpu => "cpu"@,
        MetricClass::Network => "network"@,
        MetricClass::Disk => "disk"@,
    }
}

/// The event that carries a new sample of class `c` for connection `id`.
pub open spec fn update_event_name(c: MetricClass, id: usize) -> Seq<char> {
    "server-"@ + class_name(c) + "-update-"@ + decimal_of(id as nat)
}

/// The event that reports a failed poll for connection `id`.
pub open spec fn error_event_name(id: usize) -> Seq<char> {
    "server-status-error-"@ + decimal_of(id as nat)
}

impl MetricClass {
    pub fn period_secs(&self) -> (r: u64)
        ensures
            r == period_of(*self),
    {
        match self {
            MetricClass::Uptime => 60,
            MetricClass::Memory => 5,
            MetricClass::Cpu => 2,
            MetricClass::Network => 1,
            MetricClass::Disk => 30,
        }
    }

    /// The remote command whose output gives a sample of this class.
    pub fn command(&self) -> (r: &'static str)
        ensures
            r@ == command_text(*self),
    {
        match self {
            MetricClass::Uptime => "uptime",
            MetricClass::Memory => "free -m",
            MetricClass::Cpu => "top -bn1 | grep 'Cpu(s)'",
            MetricClass::Network => "cat /proc/net/dev",
            MetricClass::Disk => "df -h --total",
        }
    }

    pub fn name(&self) -> (r: &'static str)
        ensures
            r@ == class_name(*self),
    {
        match self {
            MetricClass::Uptime => "uptime",
            MetricClass::Memory => "memory",
            MetricClass::Cpu => "cpu",
            MetricClass::Network => "network",
            MetricClass::Disk => "disk",
        }
    }

    pub fn update_event(&self, id: usize) -> (r: String)
        ensures
            r@ == update_event_name(*self, id),
    {
        let mut s = String::from_str("server-");
        s.append(self.name());
        s.append("-update-");
        let digits = decimal_chars(id as u64);
        let d = string_of(digits.as_slice());
        s.append(d.as_str());
        s
    }
}

pub fn error_event(id: usize) -> (r: String)
    ensures
        r@ == error_event_name(id),
{
    let mut s = String::from_str("server-status-error-");
    let digits = decimal_chars(id as u64);
    let d = string_of(digits.as_slice());
    s.append(d.as_str());
    s
}

/// The time, in seconds since polling started, at which each class is next due.
#[derive(Clone, Copy, Debug, PartialEq, Eq)]
pub struct PollTimers {
    pub uptime: u64,
    pub memory: u64,
    pub cpu: u64,
    pub network: u64,
    pub disk: u64,
}

pub open spec fn due_of(t: PollTimers, c: MetricClass) -> u64 {
    match c {
        MetricClass::Uptime => t.uptime,
        MetricClass::Memory => t.memory,
        MetricClass::Cpu => t.cpu,
        MetricClass::Network => t.network,
        MetricClass::Disk => t.disk,
    }
}

/// A time plus a period, held at the largest `u64`.
pub open spec fn later(t: u64, p: u64) -> u64 {
    if t + p > u64::MAX {
        u64::MAX
    } else {
        (t + p) as u64
    }
}

impl PollTimers {
    /// Every class due at once: each timer fires first when polling starts.
    pub fn new() -> (r: Self)
        ensures
            forall|c: MetricClass| due_of(r, c) == 0,
    {
        PollTimers { uptime: 0, memory: 0, cpu: 0, network: 0, disk: 0 }
    }

    pub fn due(&self, c: MetricClass) -> (r: u64)
        ensures
            r == due_of(*self, c),
    {
        match c {
            MetricClass::Uptime => self.uptime,
            MetricClass::Memory => self.memory,
            MetricClass::Cpu => self.cpu,
            MetricClass::Network => self.network,
            MetricClass::Disk => self.disk,
        }
    }

    /// The class due soonest, and when; among classes due at the same time,
    /// the first in the order uptime, memory, CPU, network, disk.
    pub fn next(&self) -> (r: (MetricClass, u64))
        ensures
            r.1 == due_of(*self, r.0),
            forall|c: MetricClass| r.1 <= #[trigger] due_of(*self, c),
            forall|c: MetricClass| rank_of(c) < rank_of(r.0) ==> r.1 < #[trigger] due_of(*self, c),
    {
        let mut best = MetricClass::Uptime;
        let mut at = self.uptime;
        if self.memory < at {
            best = MetricClass::Memory;
            at = self.memory;
        }
        if self.cpu < at {
            best = MetricClass::Cpu;
            at = self.cpu;
        }
        if self.network < at {
            best = MetricClass::Network;
            at = self.network;
        }
        if self.disk < at {
            best = MetricClass::Disk;
            at = self.disk;
        }
        (best, at)
    }

    /// Records that class `c` fired: it is next due one period later.
    pub fn fire(&mut self, c: MetricClass)
        ensures
            due_of(*final(self), c) == later(due_of(*old(self), c), period_of(c)),
            forall|o: MetricClass| o != c ==> #[trigger] due_of(*final(self), o) == due_of(*old(self), o),
    {
        let p = c.period_secs();
        match c {
            MetricClass::Uptime => self.uptime = self.uptime.saturating_add(p),
            MetricClass::Memory => self.memory = self.memory.saturating_add(p),
            MetricClass::Cpu => self.cpu = self.cpu.saturating_add(p),
            MetricClass::Network => self.network = self.network.saturating_add(p),
            MetricClass::Disk => self.disk = self.disk.saturating_add(p),
        }
    }
}

} // verus!
