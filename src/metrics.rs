//! Parsers that turn the text printed by diagnostic commands into metric
//! records. Malformed or missing fields give zero or a default text; a
//! parser never fails.
use vstd::prelude::*;

use crate::text::{
    chars_of, contains_chars, copy_range, has_infix, lines, lines_of, parse_u64, parse_u64_spec,
    split_chars, split_on, string_of, trim, trim_end_char, trimmed, trimmed_end_char, views,
    words, words_of,
};

verus! {

/// Memory figures in megabytes, as `free -m` prints them.
#[derive(Clone, Copy, Debug, PartialEq, Eq)]
pub struct MemoryUsage {
    pub total: u64,
    pub used: u64,
    pub free: u64,
}

/// The user and system CPU percentages, as the text that the summary line
/// holds for them.
#[derive(Clone, Debug)]
pub struct CpuUsage {
    pub user: String,
    pub system: String,
}

/// Bytes received and sent on ethernet-like interfaces between two counter
/// snapshots taken `elapsed_secs` apart.
#[derive(Clone, Copy, Debug, PartialEq, Eq)]
pub struct NetworkUsage {
    pub rx_bytes: u64,
    pub tx_bytes: u64,
    pub elapsed_secs: u64,
}

/// The totals row of `df -h --total`.
#[derive(Clone, Debug)]
pub struct DiskUsage {
    pub total: String,
    pub used: String,
    pub available: String,
    pub use_percentage: String,
}

/// The `k`-th element, or the empty text where there is none.
pub open spec fn nth_or_empty(v: Seq<Seq<char>>, k: int) -> Seq<char> {
    if 0 <= k < v.len() {
        v[k]
    } else {
        Seq::empty()
    }
}

/// The last element, or the empty text where there is none.
pub open spec fn last_or_empty(v: Seq<Seq<char>>) -> Seq<char> {
    if v.len() > 0 {
        v.last()
    } else {
        Seq::empty()
    }
}

/// The `k`-th field read as a `u64`; zero where it is missing or malformed.
pub open spec fn number_field(fields: Seq<Seq<char>>, k: int) -> u64 {
    match parse_u64_spec(nth_or_empty(fields, k)) {
        Some(v) => v,
        None => 0,
    }
}

/// The `k`-th field, or `default` where it is missing.
pub open spec fn text_field(fields: Seq<Seq<char>>, k: int, default: Seq<char>) -> Seq<char> {
    if 0 <= k < fields.len() {
        fields[k]
    } else {
        default
    }
}

fn element_or_empty(v: &Vec<Vec<char>>, k: usize) -> (r: Vec<char>)
    ensures
        r@ == nth_or_empty(views(v@), k as int),
{
    if k < v.len() {
        copy_range(v[k].as_slice(), 0, v[k].len())
    } else {
        Vec::new()
    }
}

fn last_element_or_empty(v: &Vec<Vec<char>>) -> (r: Vec<char>)
    ensures
        r@ == last_or_empty(views(v@)),
{
    if v.len() > 0 {
        element_or_empty(v, v.len() - 1)
    } else {
        Vec::new()
    }
}

fn number_at(fields: &Vec<Vec<char>>, k: usize) -> (r: u64)
    ensures
        r == number_field(views(fields@), k as int),
{
    let f = element_or_empty(fields, k);
    match parse_u64(f.as_slice()) {
        Some(v) => v,
        None => 0,
    }
}

fn text_at(fields: &Vec<Vec<char>>, k: usize, default: &[char]) -> (r: Vec<char>)
    ensures
        r@ == text_field(views(fields@), k as int, default@),
{
    if k < fields.len() {
        element_or_empty(fields, k)
    } else {
        copy_range(default, 0, default.len())
    }
}

/// The summary of `uptime` output: what precedes the first comma, trimmed.
pub open spec fn uptime_summary(t: Seq<char>) -> Seq<char> {
    trim(split_on(t, ',')[0])
}

pub fn parse_uptime(text: &str) -> (r: String)
    ensures
        r@ == uptime_summary(text@),
{
    let cs = chars_of(text);
    let parts = split_chars(cs.as_slice(), ',');
    proof {
        crate::text::lemma_split_on_nonempty(cs@, ',');
    }
    let first = element_or_empty(&parts, 0);
    let t = trimmed(first.as_slice());
    string_of(t.as_slice())
}

/// The fields of the second line of `free -m` output.
pub open spec fn memory_row(t: Seq<char>) -> Seq<Seq<char>> {
    words_of(nth_or_empty(lines_of(t), 1))
}

pub fn parse_memory(text: &str) -> (r: MemoryUsage)
    ensures
        r.total == number_field(memory_row(text@), 1),
        r.used == number_field(memory_row(text@), 2),
        r.free == number_field(memory_row(text@), 3),
{
    let cs = chars_of(text);
    let ls = lines(cs.as_slice());
    let row = element_or_empty(&ls, 1);
    let fields = words(row.as_slice());
    MemoryUsage { total: number_at(&fields, 1), used: number_at(&fields, 2), free: number_at(&fields, 3) }
}

/// The comma-separated percentages after the first colon of a CPU summary line.
pub open spec fn cpu_percentages(t: Seq<char>) -> Seq<Seq<char>> {
    split_on(nth_or_empty(split_on(t, ':'), 1), ',')
}

/// The `k`-th percentage: trimmed, trailing `%` signs removed, `0%` where missing.
pub open spec fn cpu_field(t: Seq<char>, k: int) -> Seq<char> {
    trim_end_char(trim(text_field(cpu_percentages(t), k, seq!['0', '%'])), '%')
}

fn percentage_at(fields: &Vec<Vec<char>>, k: usize) -> (r: String)
    ensures
        r@ == trim_end_char(trim(text_field(views(fields@), k as int, seq!['0', '%'])), '%'),
{
    let default: Vec<char> = vec!['0', '%'];
    assert(default@ =~= seq!['0', '%']);
    let f = text_at(fields, k, default.as_slice());
    let t = trimmed(f.as_slice());
    let u = trimmed_end_char(t.as_slice(), '%');
    string_of(u.as_slice())
}

pub fn parse_cpu(text: &str) -> (r: CpuUsage)
    ensures
        r.user@ == cpu_field(text@, 0),
        r.system@ == cpu_field(text@, 1),
{
    let cs = chars_of(text);
    let parts = split_chars(cs.as_slice(), ':');
    let second = element_or_empty(&parts, 1);
    let pcts = split_chars(second.as_slice(), ',');
    CpuUsage { user: percentage_at(&pcts, 0), system: percentage_at(&pcts, 1) }
}

/// A line of `/proc/net/dev` that names an ethernet-like interface.
pub open spec fn is_ethernet_line(l: Seq<char>) -> bool {
    has_infix(l, seq!['e', 't', 'h', '0']) || has_infix(l, seq!['e', 'n', 's'])
}

/// What one line adds to the counter in column `col`: the field read as a
/// number (zero if malformed) on an ethernet line with more than nine fields.
pub open spec fn line_counter(l: Seq<char>, col: int) -> nat {
    if is_ethernet_line(l) && words_of(l).len() > 9 {
        number_field(words_of(l), col) as nat
    } else {
        0
    }
}

/// The sum of column `col` over the ethernet lines.
pub open spec fn counter_total(ls: Seq<Seq<char>>, col: int) -> nat
    decreases ls.len(),
{
    if ls.len() == 0 {
        0
    } else {
        counter_total(ls.drop_last(), col) + line_counter(ls.last(), col)
    }
}

/// A sum held in a `u64`, stopping at its largest value.
pub open spec fn saturate(n: nat) -> u64 {
    if n > u64::MAX {
        u64::MAX
    } else {
        n as u64
    }
}

/// The received (column 2) and transmitted (column 10) byte counters of a
/// `/proc/net/dev` dump, summed over ethernet-like interfaces.
pub fn parse_net_info(info: &str) -> (r: (u64, u64))
    ensures
        r.0 == saturate(counter_total(lines_of(info@), 1)),
        r.1 == saturate(counter_total(lines_of(info@), 9)),
{
    let cs = chars_of(info);
    let ls = lines(cs.as_slice());
    let eth: Vec<char> = vec!['e', 't', 'h', '0'];
    let ens: Vec<char> = vec!['e', 'n', 's'];
    assert(eth@ =~= seq!['e', 't', 'h', '0']);
    assert(ens@ =~= seq!['e', 'n', 's']);
    let ghost all = views(ls@);
    let mut rx: u64 = 0;
    let mut tx: u64 = 0;
    let mut i: usize = 0;
    while i < ls.len()
        invariant
            i <= ls@.len(),
            all == views(ls@),
            eth@ == seq!['e', 't', 'h', '0'],
            ens@ == seq!['e', 'n', 's'],
            rx == saturate(counter_total(all.take(i as int), 1)),
            tx == saturate(counter_total(all.take(i as int), 9)),
        decreases ls@.len() - i,
    {
        let line = &ls[i];
        assert(all.take(i + 1).drop_last() =~= all.take(i as int));
        assert(all.take(i + 1).last() == line@);
        if contains_chars(line.as_slice(), eth.as_slice()) || contains_chars(
            line.as_slice(),
            ens.as_slice(),
        ) {
            let fields = words(line.as_slice());
            if fields.len() > 9 {
                rx = rx.saturating_add(number_at(&fields, 1));
                tx = tx.saturating_add(number_at(&fields, 9));
            }
        }
        i = i + 1;
    }
    assert(all.take(i as int) =~= all);
    (rx, tx)
}

/// `a - b`, or zero where the counter went down.
pub open spec fn counter_delta(a: u64, b: u64) -> u64 {
    if a >= b {
        (a - b) as u64
    } else {
        0
    }
}

/// The traffic between two `/proc/net/dev` dumps taken `elapsed_secs` apart.
pub fn parse_network(before: &str, after: &str, elapsed_secs: u64) -> (r: NetworkUsage)
    ensures
        r.rx_bytes == counter_delta(
            saturate(counter_total(lines_of(after@), 1)),
            saturate(counter_total(lines_of(before@), 1)),
        ),
        r.tx_bytes == counter_delta(
            saturate(counter_total(lines_of(after@), 9)),
            saturate(counter_total(lines_of(before@), 9)),
        ),
        r.elapsed_secs == elapsed_secs,
{
    let (rx0, tx0) = parse_net_info(before);
    let (rx1, tx1) = parse_net_info(after);
    NetworkUsage {
        rx_bytes: rx1.saturating_sub(rx0),
        tx_bytes: tx1.saturating_sub(tx0),
        elapsed_secs,
    }
}

/// The fields of the last line of `df -h --total` output.
pub open spec fn disk_row(t: Seq<char>) -> Seq<Seq<char>> {
    words_of(last_or_empty(lines_of(t)))
}

pub fn parse_disk(text: &str) -> (r: DiskUsage)
    ensures
        r.total@ == text_field(disk_row(text@), 1, seq!['0']),
        r.used@ == text_field(disk_row(text@), 2, seq!['0']),
        r.available@ == text_field(disk_row(text@), 3, seq!['0']),
        r.use_percentage@ == text_field(disk_row(text@), 4, seq!['0', '%']),
{
    let cs = chars_of(text);
    let ls = lines(cs.as_slice());
    let row = last_element_or_empty(&ls);
    let fields = words(row.as_slice());
    let zero: Vec<char> = vec!['0'];
    let zero_pct: Vec<char> = vec!['0', '%'];
    assert(zero@ =~= seq!['0']);
    assert(zero_pct@ =~= seq!['0', '%']);
    let total = text_at(&fields, 1, zero.as_slice());
    let used = text_at(&fields, 2, zero.as_slice());
    let available = text_at(&fields, 3, zero.as_slice());
    let use_percentage = text_at(&fields, 4, zero_pct.as_slice());
    DiskUsage {
        total: string_of(total.as_slice()),
        used: string_of(used.as_slice()),
        available: string_of(available.as_slice()),
        use_percentage: string_of(use_percentage.as_slice()),
    }
}


/// One reading of all five metric classes.
#[derive(Clone, Debug)]
pub struct ServerSnapshot {
    pub uptime: String,
    pub memory: MemoryUsage,
    pub cpu: CpuUsage,
    pub network: NetworkUsage,
    pub disk: DiskUsage,
}

/// Builds a snapshot from the outputs of the five diagnostic commands; the
/// network counters are read twice, `elapsed_secs` apart.
pub fn build_snapshot(
    uptime: &str,
    memory: &str,
    cpu: &str,
    net_before: &str,
    net_after: &str,
    disk: &str,
    elapsed_secs: u64,
) -> (r: ServerSnapshot)
    ensures
        r.uptime@ == uptime_summary(uptime@),
        r.memory.total == number_field(memory_row(memory@), 1),
        r.memory.used == number_field(memory_row(memory@), 2),
        r.memory.free == number_field(memory_row(memory@), 3),
        r.cpu.user@ == cpu_field(cpu@, 0),
        r.cpu.system@ == cpu_field(cpu@, 1),
        r.network.rx_bytes == counter_delta(
            saturate(counter_total(lines_of(net_after@), 1)),
            saturate(counter_total(lines_of(net_before@), 1)),
        ),
        r.network.tx_bytes == counter_delta(
            saturate(counter_total(lines_of(net_after@), 9)),
            saturate(counter_total(lines_of(net_before@), 9)),
        ),
        r.network.elapsed_secs == elapsed_secs,
        r.disk.total@ == text_field(disk_row(disk@), 1, seq!['0']),
        r.disk.used@ == text_field(disk_row(disk@), 2, seq!['0']),
        r.disk.available@ == text_field(disk_row(disk@), 3, seq!['0']),
        r.disk.use_percentage@ == text_field(disk_row(disk@), 4, seq!['0', '%']),
{
    ServerSnapshot {
        uptime: parse_uptime(uptime),
        memory: parse_memory(memory),
        cpu: parse_cpu(cpu),
        network: parse_network(net_before, net_after, elapsed_secs),
        disk: parse_disk(disk),
    }
}

} // verus!
