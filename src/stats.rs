//! Counter sources: each keeps its previous sample and turns the next one,
//! read from the text of a kernel counter file, into rates.
use vstd::prelude::*;

use crate::fixed::{floor_div, lemma_div_bounded, lemma_floor_div_twice, sat_i64, saturate_i64};
use crate::order::{sort_desc, sorted_desc};
use crate::text::{
    copy_bytes, same_bytes, fields_of, i64_of, lines_of, parse_i64, split_fields, split_lines, views,
};

verus! {

/// Why a sample could not be taken.
#[derive(Debug, Clone, Copy, PartialEq, Eq, Structural)]
pub enum StatsError {
    /// The counter text holds no line to read.
    Empty,
    /// A counter line lacks a field that it must have.
    Malformed,
    /// A counter field is not a decimal `i64`.
    BadNumber,
    /// The new sample is not later than the previous one.
    ClockStalled,
    /// The number of CPU lines differs from the previous sample.
    CpuCountChanged,
}

/// The number on the first line of `text`.
pub open spec fn number_of(text: Seq<u8>) -> Result<i64, StatsError> {
    let lines = lines_of(text);
    if lines.len() == 0 {
        Err(StatsError::Empty)
    } else {
        match i64_of(lines[0]) {
            Some(v) => Ok(v),
            None => Err(StatsError::BadNumber),
        }
    }
}

/// Reads the number on the first line of a counter file's text.
pub fn read_number(text: &[u8]) -> (r: Result<i64, StatsError>)
    ensures
        r == number_of(text@),
{
    let lines = split_lines(text);
    if lines.len() == 0 {
        return Err(StatsError::Empty);
    }
    proof {
        assert(views(lines@)[0] == lines@[0]@);
    }
    match parse_i64(lines[0].as_slice()) {
        Some(v) => Ok(v),
        None => Err(StatsError::BadNumber),
    }
}

/// Bits per second from a byte counter that went from `prev` to `cnt` in
/// `us` microseconds, rounded down and held to the range of `i64`.
pub open spec fn bitrate_of(prev: i64, cnt: i64, us: int) -> int {
    sat_i64((8 * (cnt - prev) * 1_000_000) / us)
}

/// Computes `bitrate_of(prev, cnt, us)`.
pub fn bitrate_between(prev: i64, cnt: i64, us: u64) -> (r: i64)
    requires
        us > 0,
    ensures
        r == bitrate_of(prev, cnt, us as int),
{
    let delta: i128 = cnt as i128 - prev as i128;
    let bits: i128 = 8 * delta * 1_000_000;
    saturate_i64(floor_div(bits, us as i128))
}

/// The direction of an interface's traffic that a counter follows.
#[derive(Debug, Clone, Copy, PartialEq, Eq, Structural)]
pub enum IfCounter {
    Rx,
    Tx,
}

impl IfCounter {
    /// The name of the interface statistics file for this direction.
    pub fn stat_name(&self) -> (r: &'static str)
        ensures
            r@ == (match self {
                IfCounter::Rx => "rx_bytes"@,
                IfCounter::Tx => "tx_bytes"@,
            }),
    {
        match self {
            IfCounter::Rx => "rx_bytes",
            IfCounter::Tx => "tx_bytes",
        }
    }
}

/// The byte counter of one direction of one network interface.
#[derive(Debug)]
pub struct IfStats {
    pub iface: String,
    pub dir: IfCounter,
    prev_us: u64,
    prev_cnt: i64,
}

impl IfStats {
    /// The interface's name.
    pub closed spec fn name(&self) -> Seq<char> {
        self.iface@
    }

    /// The direction followed.
    pub closed spec fn direction(&self) -> IfCounter {
        self.dir
    }

    /// When the previous sample was taken, in microseconds.
    pub closed spec fn stamp(&self) -> u64 {
        self.prev_us
    }

    /// The counter in the previous sample.
    pub closed spec fn count(&self) -> i64 {
        self.prev_cnt
    }

    /// Takes the first sample from the counter file's text, read at `now_us`.
    pub fn new(iface: &str, dir: IfCounter, text: &[u8], now_us: u64) -> (r: Result<
        IfStats,
        StatsError,
    >)
        ensures
            match number_of(text@) {
                Ok(v) => r matches Ok(s) && s.name() == iface@ && s.direction() == dir && s.count() == v
                    && s.stamp() == now_us,
                Err(e) => r == Err::<IfStats, StatsError>(e),
            },
    {
        let prev_cnt = read_number(text)?;
        Ok(IfStats { iface: iface.to_owned(), dir, prev_us: now_us, prev_cnt })
    }

    /// Takes the next sample and returns the bit rate since the previous one.
    /// On an error the previous sample stays.
    pub fn bitrate(&mut self, text: &[u8], now_us: u64) -> (r: Result<i64, StatsError>)
        ensures
            final(self).name() == old(self).name(),
            final(self).direction() == old(self).direction(),
            match number_of(text@) {
                Err(e) => r == Err::<i64, StatsError>(e) && *final(self) == *old(self),
                Ok(cnt) => if now_us <= old(self).stamp() {
                    r == Err::<i64, StatsError>(StatsError::ClockStalled) && *final(self) == *old(
                        self,
                    )
                } else {
                    r == Ok::<i64, StatsError>(
                        bitrate_of(
                            old(self).count(),
                            cnt,
                            now_us - old(self).stamp(),
                        ) as i64,
                    ) && final(self).count() == cnt && final(self).stamp() == now_us
                },
            },
    {
        let cnt = read_number(text)?;
        if now_us <= self.prev_us {
            return Err(StatsError::ClockStalled);
        }
        let rate = bitrate_between(self.prev_cnt, cnt, now_us - self.prev_us);
        self.prev_cnt = cnt;
        self.prev_us = now_us;
        Ok(rate)
    }
}

/// Whether a field names a CPU line: it starts with `cpu`.
pub open spec fn is_cpu_field(f: Seq<u8>) -> bool {
    f.len() >= 3 && f[0] == 99 && f[1] == 112 && f[2] == 117
}

/// `r` with `p` in front, where `r` is a success.
pub open spec fn prepend(p: Seq<i64>, r: Result<Seq<i64>, StatsError>) -> Result<Seq<i64>, StatsError> {
    match r {
        Ok(v) => Ok(p + v),
        Err(e) => Err(e),
    }
}

/// The idle counters (fifth field) of the CPU lines from line `i` on, up to
/// the first line that is not a CPU line; the first fault if a line before
/// that is empty, has too few fields or has a bad number.
pub open spec fn cpu_idle_from(lines: Seq<Seq<u8>>, i: int) -> Result<Seq<i64>, StatsError>
    decreases lines.len() - i,
{
    if i < 0 || i >= lines.len() {
        Ok(seq![])
    } else {
        let f = fields_of(lines[i]);
        if f.len() == 0 {
            Err(StatsError::Malformed)
        } else if !is_cpu_field(f[0]) {
            Ok(seq![])
        } else if f.len() < 5 {
            Err(StatsError::Malformed)
        } else {
            match i64_of(f[4]) {
                None => Err(StatsError::BadNumber),
                Some(v) => prepend(seq![v], cpu_idle_from(lines, i + 1)),
            }
        }
    }
}

/// The idle counters that the text of the kernel's CPU statistics gives:
/// the aggregate first, then one per core. Text without lines is empty.
pub open spec fn cpu_idle_of(text: Seq<u8>) -> Result<Seq<i64>, StatsError> {
    if lines_of(text).len() == 0 {
        Err(StatsError::Empty)
    } else {
        cpu_idle_from(lines_of(text), 0)
    }
}

/// The idle counters of a first CPU sample, which needs at least one core
/// besides the aggregate.
pub open spec fn cpu_sample_of(text: Seq<u8>) -> Result<Seq<i64>, StatsError> {
    match cpu_idle_of(text) {
        Ok(v) => if v.len() < 2 {
            Err(StatsError::Empty)
        } else {
            Ok(v)
        },
        Err(e) => Err(e),
    }
}

/// Reads the idle counters from the text of the kernel's CPU statistics.
pub fn read_cpu_idle(text: &[u8]) -> (r: Result<Vec<i64>, StatsError>)
    ensures
        match cpu_idle_of(text@) {
            Ok(v) => r matches Ok(w) && w@ == v,
            Err(e) => r matches Err(x) && x == e,
        },
{
    let lines = split_lines(text);
    let ghost ls = lines_of(text@);
    if lines.len() == 0 {
        return Err(StatsError::Empty);
    }
    let mut out: Vec<i64> = Vec::new();
    let mut i: usize = 0;
    proof {
        assert(out@ + seq![] =~= seq![]);
        assert(prepend(out@, cpu_idle_from(ls, 0)) =~= cpu_idle_from(ls, 0)) by {
            match cpu_idle_from(ls, 0) {
                Ok(v) => assert(out@ + v =~= v),
                Err(_) => {},
            }
        }
    }
    while i < lines.len()
        invariant
            views(lines@) == ls,
            ls == lines_of(text@),
            ls.len() > 0,
            i <= ls.len(),
            prepend(out@, cpu_idle_from(ls, i as int)) == cpu_idle_from(ls, 0),
        ensures
            prepend(out@, cpu_idle_from(ls, i as int)) == cpu_idle_from(ls, 0),
            cpu_idle_from(ls, i as int) == Ok::<Seq<i64>, StatsError>(seq![]),
        decreases lines.len() - i,
    {
        proof {
            assert(views(lines@)[i as int] == lines@[i as int]@);
        }
        let f = split_fields(lines[i].as_slice());
        let ghost fv = fields_of(ls[i as int]);
        if f.len() == 0 {
            proof {
                assert(fv == views(f@));
            }
            return Err(StatsError::Malformed);
        }
        proof {
            assert(views(f@)[0] == f@[0]@);
        }
        let head = f[0].as_slice();
        if !(head.len() >= 3 && head[0] == 99 && head[1] == 112 && head[2] == 117) {
            break;
        }
        proof {
            assert(fv == views(f@));
            assert(fv[0] == head@);
            assert(is_cpu_field(fv[0]));
        }
        if f.len() < 5 {
            proof {
                assert(cpu_idle_from(ls, i as int) == Err::<Seq<i64>, StatsError>(StatsError::Malformed));
            }
            return Err(StatsError::Malformed);
        }
        proof {
            assert(views(f@)[4] == f@[4]@);
        }
        match parse_i64(f[4].as_slice()) {
            None => {
                return Err(StatsError::BadNumber);
            },
            Some(v) => {
                proof {
                    match cpu_idle_from(ls, i + 1) {
                        Ok(w) => assert(out@ + (seq![v] + w) =~= out@.push(v) + w),
                        Err(_) => {},
                    }
                }
                out.push(v);
            },
        }
        i = i + 1;
    }
    proof {
        assert(out@ + seq![] =~= out@);
    }
    Ok(out)
}

/// Busy share of a CPU in thousandths of a percent: 100 % less the share of
/// the `us` microseconds that its idle counter, in 10 ms ticks, grew by,
/// spread over `norm` cores. Rounded down and held to the range of `i64`.
pub open spec fn busy_of(prev: i64, idle: i64, us: int, norm: int) -> int {
    sat_i64(100_000 - (1_000_000_000 * (idle - prev)) / (us * norm))
}

/// Computes `busy_of(prev, idle, us, norm)`.
pub fn busy_between(prev: i64, idle: i64, us: u64, norm: u64) -> (r: i64)
    requires
        us > 0,
        norm > 0,
    ensures
        r == busy_of(prev, idle, us as int, norm as int),
{
    let delta: i128 = idle as i128 - prev as i128;
    let ticks: i128 = 1_000_000_000 * delta;
    let per_us = floor_div(ticks, us as i128);
    proof {
        lemma_floor_div_twice(ticks as int, us as int, norm as int);
        lemma_div_bounded(ticks as int, 20_000_000_000_000_000_000_000_000_000, us as int);
    }
    let per_core = floor_div(per_us, norm as i128);
    proof {
        lemma_div_bounded(per_us as int, 20_000_000_000_000_000_000_000_000_000, norm as int);
    }
    saturate_i64(100_000 - per_core)
}

/// Busy shares of the cores alone, in the order of the counters.
pub open spec fn core_busy(prev: Seq<i64>, idle: Seq<i64>, us: int) -> Seq<i64> {
    Seq::new((idle.len() - 1) as nat, |k: int| busy_of(prev[k + 1], idle[k + 1], us, 1) as i64)
}

/// `r` is what a CPU sample `idle` gives after `prev`, `us` microseconds
/// later: first the aggregate's busy share, spread over the cores, then the
/// cores' busy shares from the busiest down.
pub open spec fn cpu_rates_of(r: Seq<i64>, prev: Seq<i64>, idle: Seq<i64>, us: int) -> bool {
    &&& r.len() == idle.len()
    &&& r[0] == busy_of(prev[0], idle[0], us, idle.len() - 1) as i64
    &&& r.drop_first().to_multiset() == core_busy(prev, idle, us).to_multiset()
    &&& sorted_desc(r.drop_first())
}

/// The idle counters of the aggregate CPU and of each core.
#[derive(Debug)]
pub struct CpuStats {
    prev_us: u64,
    prev_idle: Vec<i64>,
}

impl CpuStats {
    #[verifier::type_invariant]
    spec fn holds_cores(&self) -> bool {
        self.prev_idle@.len() >= 2
    }

    /// When the previous sample was taken, in microseconds.
    pub closed spec fn stamp(&self) -> u64 {
        self.prev_us
    }

    /// The idle counters of the previous sample, aggregate first.
    pub closed spec fn idle(&self) -> Seq<i64> {
        self.prev_idle@
    }

    /// Takes the first sample from the text of the kernel's CPU statistics,
    /// read at `now_us`.
    pub fn new(text: &[u8], now_us: u64) -> (r: Result<CpuStats, StatsError>)
        ensures
            match cpu_sample_of(text@) {
                Ok(v) => r matches Ok(s) && s.idle() == v && s.stamp() == now_us,
                Err(e) => r matches Err(x) && x == e,
            },
    {
        let prev_idle = read_cpu_idle(text)?;
        if prev_idle.len() < 2 {
            return Err(StatsError::Empty);
        }
        Ok(CpuStats { prev_us: now_us, prev_idle })
    }

    /// The number of cores.
    pub fn n_cpu(&self) -> (r: usize)
        ensures
            r == self.idle().len() - 1,
            r >= 1,
    {
        proof {
            use_type_invariant(self);
        }
        self.prev_idle.len() - 1
    }

    /// Takes the next sample and returns the busy shares since the previous
    /// one, in thousandths of a percent: the aggregate first, then the cores
    /// from the busiest down. On an error the previous sample stays.
    pub fn cpurates(&mut self, text: &[u8], now_us: u64) -> (r: Result<Vec<i64>, StatsError>)
        ensures
            r matches Ok(v) ==> v@.len() >= 2,
            match cpu_idle_of(text@) {
                Err(e) => r matches Err(x) && x == e && final(self).idle() == old(self).idle()
                    && final(self).stamp() == old(self).stamp(),
                Ok(idle) => if idle.len() != old(self).idle().len() {
                    r matches Err(x) && x == StatsError::CpuCountChanged && final(self).idle()
                        == old(self).idle() && final(self).stamp() == old(self).stamp()
                } else if now_us <= old(self).stamp() {
                    r matches Err(x) && x == StatsError::ClockStalled && final(self).idle()
                        == old(self).idle() && final(self).stamp() == old(self).stamp()
                } else {
                    r matches Ok(v) && cpu_rates_of(
                        v@,
                        old(self).idle(),
                        idle,
                        now_us - old(self).stamp(),
                    ) && final(self).idle() == idle && final(self).stamp() == now_us
                },
            },
    {
        proof {
            use_type_invariant(&*self);
        }
        let idle = read_cpu_idle(text)?;
        let n = idle.len();
        if n != self.prev_idle.len() {
            return Err(StatsError::CpuCountChanged);
        }
        if now_us <= self.prev_us {
            return Err(StatsError::ClockStalled);
        }
        let us = now_us - self.prev_us;
        let ghost prev = self.prev_idle@;
        let total = busy_between(self.prev_idle[0], idle[0], us, (n - 1) as u64);
        let mut cores: Vec<i64> = Vec::new();
        let mut k: usize = 1;
        while k < n
            invariant
                1 <= k <= n,
                n == idle@.len(),
                n == prev.len(),
                prev == self.prev_idle@,
                us > 0,
                cores@ =~= core_busy(prev, idle@, us as int).take(k - 1),
            decreases n - k,
        {
            let b = busy_between(self.prev_idle[k], idle[k], us, 1);
            cores.push(b);
            k = k + 1;
        }
        proof {
            assert(core_busy(prev, idle@, us as int).take(n - 1) =~= core_busy(prev, idle@, us as int));
        }
        sort_desc(&mut cores);
        let mut rates: Vec<i64> = Vec::new();
        rates.push(total);
        let mut j: usize = 0;
        while j < cores.len()
            invariant
                j <= cores@.len(),
                rates@ =~= seq![total] + cores@.take(j as int),
            decreases cores.len() - j,
        {
            rates.push(cores[j]);
            j = j + 1;
        }
        proof {
            assert(cores@.take(cores@.len() as int) =~= cores@);
            assert(rates@.drop_first() =~= cores@);
        }
        self.prev_idle = idle;
        self.prev_us = now_us;
        Ok(rates)
    }
}

/// The sector counters of one block device.
#[derive(Debug)]
pub struct DiskCounters {
    pub name: Vec<u8>,
    pub read: i64,
    pub written: i64,
}

impl View for DiskCounters {
    type V = (Seq<u8>, i64, i64);

    open spec fn view(&self) -> (Seq<u8>, i64, i64) {
        (self.name@, self.read, self.written)
    }
}

/// The views of a table of device counters.
pub open spec fn disk_views(s: Seq<DiskCounters>) -> Seq<(Seq<u8>, i64, i64)> {
    s.map_values(|d: DiskCounters| d@)
}

/// Whether a device name is a whole disk that is followed: `sd` and one more
/// byte, or `nvme` and three more.
pub open spec fn is_disk_name(t: Seq<u8>) -> bool {
    (t.len() == 3 && t[0] == 115 && t[1] == 100) || (t.len() == 7 && t[0] == 110 && t[1] == 118
        && t[2] == 109 && t[3] == 101)
}

/// The first index from `k` on at which `m` holds the device `name`, or -1.
pub open spec fn name_index(m: Seq<(Seq<u8>, i64, i64)>, name: Seq<u8>, k: int) -> int
    decreases m.len() - k,
{
    if k < 0 || k >= m.len() {
        -1
    } else if m[k].0 == name {
        k
    } else {
        name_index(m, name, k + 1)
    }
}

/// `name_index` gives -1 or an index of `m` from `k` on that holds `name`.
pub proof fn lemma_name_index_bounds(m: Seq<(Seq<u8>, i64, i64)>, name: Seq<u8>, k: int)
    requires
        0 <= k,
    ensures
        name_index(m, name, k) == -1 || (k <= name_index(m, name, k) < m.len() && m[name_index(
            m,
            name,
            k,
        )].0 == name),
    decreases m.len() - k,
{
    if k < m.len() && m[k].0 != name {
        lemma_name_index_bounds(m, name, k + 1);
    }
}

/// The table `m` with the entry `e`, which replaces an entry of the same name.
pub open spec fn disk_insert(m: Seq<(Seq<u8>, i64, i64)>, e: (Seq<u8>, i64, i64)) -> Seq<
    (Seq<u8>, i64, i64),
> {
    let k = name_index(m, e.0, 0);
    if k < 0 {
        m.push(e)
    } else {
        m.update(k, e)
    }
}

/// The device table from line `i` on, added to `acc`: sectors read (sixth
/// field) and written (tenth field) of each followed device, by its name
/// (third field); the first fault if a line has too few fields or a bad
/// number.
pub open spec fn disk_scan(lines: Seq<Seq<u8>>, i: int, acc: Seq<(Seq<u8>, i64, i64)>) -> Result<
    Seq<(Seq<u8>, i64, i64)>,
    StatsError,
>
    decreases lines.len() - i,
{
    if i < 0 || i >= lines.len() {
        Ok(acc)
    } else {
        let f = fields_of(lines[i]);
        if f.len() < 3 {
            Err(StatsError::Malformed)
        } else if !is_disk_name(f[2]) {
            disk_scan(lines, i + 1, acc)
        } else if f.len() < 10 {
            Err(StatsError::Malformed)
        } else {
            match (i64_of(f[5]), i64_of(f[9])) {
                (Some(rd), Some(wr)) => disk_scan(lines, i + 1, disk_insert(acc, (f[2], rd, wr))),
                _ => Err(StatsError::BadNumber),
            }
        }
    }
}

/// The device table that the text of the kernel's disk statistics gives.
pub open spec fn disk_stats_of(text: Seq<u8>) -> Result<Seq<(Seq<u8>, i64, i64)>, StatsError> {
    if lines_of(text).len() == 0 {
        Err(StatsError::Empty)
    } else {
        disk_scan(lines_of(text), 0, seq![])
    }
}

/// No two entries of `m` name the same device.
pub open spec fn names_unique(m: Seq<(Seq<u8>, i64, i64)>) -> bool {
    forall|a: int, b: int| 0 <= a < b < m.len() ==> m[a].0 != m[b].0
}

/// `name_index` gives -1 only where no entry from `k` on has `name`.
proof fn lemma_name_absent(m: Seq<(Seq<u8>, i64, i64)>, name: Seq<u8>, k: int)
    requires
        0 <= k,
        name_index(m, name, k) == -1,
    ensures
        forall|j: int| k <= j < m.len() ==> m[j].0 != name,
    decreases m.len() - k,
{
    if k < m.len() {
        lemma_name_absent(m, name, k + 1);
    }
}

/// Inserting an entry keeps device names unique.
proof fn lemma_insert_keeps_unique(m: Seq<(Seq<u8>, i64, i64)>, e: (Seq<u8>, i64, i64))
    requires
        names_unique(m),
    ensures
        names_unique(disk_insert(m, e)),
{
    let k = name_index(m, e.0, 0);
    lemma_name_index_bounds(m, e.0, 0);
    if k < 0 {
        lemma_name_absent(m, e.0, 0);
    }
}

proof fn lemma_disk_scan_unique(
    lines: Seq<Seq<u8>>,
    i: int,
    acc: Seq<(Seq<u8>, i64, i64)>,
)
    requires
        names_unique(acc),
    ensures
        disk_scan(lines, i, acc) matches Ok(v) ==> names_unique(v),
    decreases lines.len() - i,
{
    if 0 <= i < lines.len() {
        let f = fields_of(lines[i]);
        if f.len() >= 3 {
            if !is_disk_name(f[2]) {
                lemma_disk_scan_unique(lines, i + 1, acc);
            } else if f.len() >= 10 {
                match (i64_of(f[5]), i64_of(f[9])) {
                    (Some(rd), Some(wr)) => {
                        lemma_insert_keeps_unique(acc, (f[2], rd, wr));
                        lemma_disk_scan_unique(lines, i + 1, disk_insert(acc, (f[2], rd, wr)));
                    },
                    _ => {},
                }
            }
        }
    }
}

/// The device table that disk statistics text gives names each device once.
pub proof fn lemma_disk_stats_unique(text: Seq<u8>)
    ensures
        disk_stats_of(text) matches Ok(v) ==> names_unique(v),
{
    lemma_disk_scan_unique(lines_of(text), 0, seq![]);
}

/// Where `m` holds the device `name`, if it does.
fn find_device(m: &Vec<DiskCounters>, name: &[u8]) -> (r: Option<usize>)
    ensures
        match r {
            Some(k) => k < m@.len() && k as int == name_index(disk_views(m@), name@, 0),
            None => name_index(disk_views(m@), name@, 0) == -1,
        },
{
    let ghost mv = disk_views(m@);
    let mut k: usize = 0;
    while k < m.len()
        invariant
            k <= m@.len(),
            mv == disk_views(m@),
            name_index(mv, name@, 0) == name_index(mv, name@, k as int),
        decreases m.len() - k,
    {
        proof {
            assert(mv[k as int] == m@[k as int]@);
        }
        if same_bytes(m[k].name.as_slice(), name) {
            proof {
                lemma_name_index_bounds(mv, name@, 0);
            }
            return Some(k);
        }
        k = k + 1;
    }
    None
}

/// Reads the device table from the text of the kernel's disk statistics.
pub fn read_diskstats(text: &[u8]) -> (r: Result<Vec<DiskCounters>, StatsError>)
    ensures
        match disk_stats_of(text@) {
            Ok(v) => r matches Ok(w) && disk_views(w@) == v,
            Err(e) => r matches Err(x) && x == e,
        },
        r matches Ok(w) ==> names_unique(disk_views(w@)),
{
    proof {
        lemma_disk_stats_unique(text@);
    }
    let lines = split_lines(text);
    let ghost ls = lines_of(text@);
    if lines.len() == 0 {
        return Err(StatsError::Empty);
    }
    let mut out: Vec<DiskCounters> = Vec::new();
    let mut i: usize = 0;
    proof {
        assert(disk_views(out@) =~= seq![]);
    }
    while i < lines.len()
        invariant
            views(lines@) == ls,
            ls == lines_of(text@),
            ls.len() > 0,
            i <= ls.len(),
            disk_scan(ls, i as int, disk_views(out@)) == disk_scan(ls, 0, seq![]),
        decreases lines.len() - i,
    {
        proof {
            assert(views(lines@)[i as int] == lines@[i as int]@);
        }
        let f = split_fields(lines[i].as_slice());
        proof {
            assert(views(f@) == fields_of(ls[i as int]));
        }
        if f.len() < 3 {
            return Err(StatsError::Malformed);
        }
        proof {
            assert(views(f@)[2] == f@[2]@);
        }
        let dev = f[2].as_slice();
        let followed = (dev.len() == 3 && dev[0] == 115 && dev[1] == 100) || (dev.len() == 7
            && dev[0] == 110 && dev[1] == 118 && dev[2] == 109 && dev[3] == 101);
        if followed {
            if f.len() < 10 {
                return Err(StatsError::Malformed);
            }
            proof {
                assert(views(f@)[5] == f@[5]@);
                assert(views(f@)[9] == f@[9]@);
            }
            let rd = parse_i64(f[5].as_slice());
            let wr = parse_i64(f[9].as_slice());
            match (rd, wr) {
                (Some(rd), Some(wr)) => {
                    let entry = DiskCounters { name: copy_bytes(dev), read: rd, written: wr };
                    let ghost before = disk_views(out@);
                    match find_device(&out, dev) {
                        Some(k) => {
                            out.set(k, entry);
                            proof {
                                assert(disk_views(out@) =~= before.update(k as int, entry@));
                            }
                        },
                        None => {
                            out.push(entry);
                            proof {
                                assert(disk_views(out@) =~= before.push(entry@));
                            }
                        },
                    }
                },
                _ => {
                    return Err(StatsError::BadNumber);
                },
            }
        }
        i = i + 1;
    }
    Ok(out)
}

/// Sectors per second of one device between two samples `us` microseconds
/// apart, rounded down and held to the range of `i64`.
pub open spec fn disk_rate_of(cur: (Seq<u8>, i64, i64), prev: (Seq<u8>, i64, i64), us: int) -> int {
    sat_i64((((cur.1 - prev.1) + (cur.2 - prev.2)) * 1_000_000) / us)
}

/// The rates of the devices of `cur` from index `i` on that `prev` holds too,
/// in the order of `cur`; a device new in `cur` gives none.
pub open spec fn disk_rates_from(
    cur: Seq<(Seq<u8>, i64, i64)>,
    prev: Seq<(Seq<u8>, i64, i64)>,
    us: int,
    i: int,
) -> Seq<i64>
    decreases cur.len() - i,
{
    if i < 0 || i >= cur.len() {
        seq![]
    } else {
        let k = name_index(prev, cur[i].0, 0);
        let here = if k < 0 {
            seq![]
        } else {
            seq![disk_rate_of(cur[i], prev[k], us) as i64]
        };
        here + disk_rates_from(cur, prev, us, i + 1)
    }
}

/// A device that the previous sample lacks adds no rate: the current sample
/// with it gives the same rates as without it.
pub proof fn lemma_new_device_adds_no_rate(
    cur: Seq<(Seq<u8>, i64, i64)>,
    prev: Seq<(Seq<u8>, i64, i64)>,
    e: (Seq<u8>, i64, i64),
    us: int,
)
    requires
        name_index(prev, e.0, 0) == -1,
    ensures
        disk_rates_from(cur.push(e), prev, us, 0) == disk_rates_from(cur, prev, us, 0),
{
    lemma_rates_with_new_device(cur, prev, e, us, 0);
}

proof fn lemma_rates_with_new_device(
    cur: Seq<(Seq<u8>, i64, i64)>,
    prev: Seq<(Seq<u8>, i64, i64)>,
    e: (Seq<u8>, i64, i64),
    us: int,
    i: int,
)
    requires
        name_index(prev, e.0, 0) == -1,
        0 <= i <= cur.len(),
    ensures
        disk_rates_from(cur.push(e), prev, us, i) == disk_rates_from(cur, prev, us, i),
    decreases cur.len() - i,
{
    if i == cur.len() {
        assert(cur.push(e)[i] == e);
        assert(disk_rates_from(cur.push(e), prev, us, i + 1) == Seq::<i64>::empty());
        assert(disk_rates_from(cur.push(e), prev, us, i) =~= Seq::<i64>::empty());
    } else {
        lemma_rates_with_new_device(cur, prev, e, us, i + 1);
        assert(cur.push(e)[i] == cur[i]);
    }
}

/// Computes `disk_rate_of(cur, prev, us)`.
pub fn disk_rate_between(cur: &DiskCounters, prev: &DiskCounters, us: u64) -> (r: i64)
    requires
        us > 0,
    ensures
        r == disk_rate_of(cur@, prev@, us as int),
{
    let sectors: i128 = (cur.read as i128 - prev.read as i128) + (cur.written as i128
        - prev.written as i128);
    saturate_i64(floor_div(sectors * 1_000_000, us as i128))
}

/// The sector counters of the followed block devices.
#[derive(Debug)]
pub struct DiskStats {
    prev_us: u64,
    prev_stats: Vec<DiskCounters>,
}

impl DiskStats {
    /// When the previous sample was taken, in microseconds.
    pub closed spec fn stamp(&self) -> u64 {
        self.prev_us
    }

    /// The device table of the previous sample.
    pub closed spec fn table(&self) -> Seq<(Seq<u8>, i64, i64)> {
        disk_views(self.prev_stats@)
    }

    /// Takes the first sample from the text of the kernel's disk statistics,
    /// read at `now_us`.
    pub fn new(text: &[u8], now_us: u64) -> (r: Result<DiskStats, StatsError>)
        ensures
            match disk_stats_of(text@) {
                Ok(v) => r matches Ok(s) && s.table() == v && s.stamp() == now_us,
                Err(e) => r matches Err(x) && x == e,
            },
            r matches Ok(s) ==> names_unique(s.table()),
    {
        let prev_stats = read_diskstats(text)?;
        Ok(DiskStats { prev_us: now_us, prev_stats })
    }

    /// Takes the next sample and returns, from the largest down, the sectors
    /// per second of each device that both samples hold. On an error the
    /// previous sample stays.
    pub fn diskrates(&mut self, text: &[u8], now_us: u64) -> (r: Result<Vec<i64>, StatsError>)
        ensures
            r is Ok ==> names_unique(final(self).table()),
            match disk_stats_of(text@) {
                Err(e) => r matches Err(x) && x == e && final(self).table() == old(self).table()
                    && final(self).stamp() == old(self).stamp(),
                Ok(cur) => if now_us <= old(self).stamp() {
                    r matches Err(x) && x == StatsError::ClockStalled && final(self).table()
                        == old(self).table() && final(self).stamp() == old(self).stamp()
                } else {
                    r matches Ok(v) && v@.to_multiset() == disk_rates_from(
                        cur,
                        old(self).table(),
                        now_us - old(self).stamp(),
                        0,
                    ).to_multiset() && sorted_desc(v@) && final(self).table() == cur
                        && final(self).stamp() == now_us
                },
            },
    {
        let stats = read_diskstats(text)?;
        if now_us <= self.prev_us {
            return Err(StatsError::ClockStalled);
        }
        let us = now_us - self.prev_us;
        let ghost cur = disk_views(stats@);
        let ghost prev = disk_views(self.prev_stats@);
        let mut rates: Vec<i64> = Vec::new();
        let mut i: usize = 0;
        proof {
            assert(rates@ + disk_rates_from(cur, prev, us as int, 0) =~= disk_rates_from(cur, prev, us as int, 0));
        }
        while i < stats.len()
            invariant
                i <= stats@.len(),
                cur == disk_views(stats@),
                prev == disk_views(self.prev_stats@),
                us > 0,
                rates@ + disk_rates_from(cur, prev, us as int, i as int) == disk_rates_from(
                    cur,
                    prev,
                    us as int,
                    0,
                ),
            decreases stats.len() - i,
        {
            proof {
                assert(cur[i as int] == stats@[i as int]@);
            }
            match find_device(&self.prev_stats, stats[i].name.as_slice()) {
                None => {
                    proof {
                        assert(disk_rates_from(cur, prev, us as int, i as int) =~= disk_rates_from(cur, prev, us as int, i + 1));
                    }
                },
                Some(k) => {
                    proof {
                        assert(prev[k as int] == self.prev_stats@[k as int]@);
                    }
                    let rate = disk_rate_between(&stats[i], &self.prev_stats[k], us);
                    proof {
                        assert(rates@.push(rate) + disk_rates_from(cur, prev, us as int, i + 1) =~= rates@
                            + disk_rates_from(cur, prev, us as int, i as int));
                    }
                    rates.push(rate);
                },
            }
            i = i + 1;
        }
        proof {
            assert(rates@ + disk_rates_from(cur, prev, us as int, i as int) =~= rates@);
        }
        sort_desc(&mut rates);
        self.prev_stats = stats;
        self.prev_us = now_us;
        Ok(rates)
    }
}

} // verus!
