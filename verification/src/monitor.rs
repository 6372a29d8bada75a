//! Resource monitoring: immutable utilization snapshots, replaced wholesale
//! on each tick, and the mean-utilization reading that drives cap changes.
//!
//! Utilizations are carried in hundredths of a percent, temperatures in
//! hundredths of a degree, so that contracts speak of plain integers.

use vstd::prelude::*;

verus! {

/// What the machine offers: memory in bytes, core and device counts.
#[derive(Clone, Copy, PartialEq, Eq, Structural, Debug)]
pub struct SystemHardware {
    pub total_memory: u64,
    pub cpu_cores: usize,
    pub gpu_count: usize,
}

/// One reading of the machine: available memory in bytes, per-core CPU
/// utilization, per-device GPU utilization and temperature, CPU temperature.
pub struct ResourceSnapshot {
    pub available_memory: u64,
    pub cpu_usage: Vec<u32>,
    pub gpu_usage: Vec<u32>,
    pub gpu_temperature: Vec<u32>,
    pub cpu_temperature: u32,
}

/// The abstract value of a snapshot.
pub ghost struct SnapshotView {
    pub available_memory: u64,
    pub cpu_usage: Seq<u32>,
    pub gpu_usage: Seq<u32>,
    pub gpu_temperature: Seq<u32>,
    pub cpu_temperature: u32,
}

impl View for ResourceSnapshot {
    type V = SnapshotView;

    open spec fn view(&self) -> SnapshotView {
        SnapshotView {
            available_memory: self.available_memory,
            cpu_usage: self.cpu_usage@,
            gpu_usage: self.gpu_usage@,
            gpu_temperature: self.gpu_temperature@,
            cpu_temperature: self.cpu_temperature,
        }
    }
}

/// The sum of a sequence of readings.
pub open spec fn sum_of(s: Seq<u32>) -> int
    decreases s.len(),
{
    if s.len() == 0 {
        0
    } else {
        sum_of(s.drop_last()) + s.last()
    }
}

/// The mean of a sequence of readings; an empty sequence reads as idle.
pub open spec fn spec_mean(s: Seq<u32>) -> int {
    if s.len() == 0 {
        0
    } else {
        sum_of(s) / s.len() as int
    }
}

proof fn lemma_sum_bound(s: Seq<u32>, bound: int)
    requires
        forall|i: int| 0 <= i < s.len() ==> s[i] <= bound,
    ensures
        0 <= sum_of(s) <= bound * s.len(),
    decreases s.len(),
{
    if s.len() > 0 {
        assert(forall|i: int|
            0 <= i < s.drop_last().len() ==> s.drop_last()[i] == s[i]);
        lemma_sum_bound(s.drop_last(), bound);
        assert(bound * s.len() == bound * (s.len() - 1) + bound) by (nonlinear_arith);
    }
}

impl ResourceSnapshot {
    /// Every utilization reading is at most full scale.
    pub open spec fn wf(&self) -> bool {
        &&& forall|i: int| 0 <= i < self@.cpu_usage.len() ==> self@.cpu_usage[i] <= 10000
        &&& forall|i: int| 0 <= i < self@.gpu_usage.len() ==> self@.gpu_usage[i] <= 10000
    }

    /// A snapshot from raw readings; utilizations above full scale are
    /// clamped to it.
    pub fn new(
        available_memory: u64,
        cpu_usage: Vec<u32>,
        gpu_usage: Vec<u32>,
        gpu_temperature: Vec<u32>,
        cpu_temperature: u32,
    ) -> (r: ResourceSnapshot)
        ensures
            r.wf(),
            r@.available_memory == available_memory,
            r@.cpu_usage == cpu_usage@.map_values(|u: u32| clamp_full(u)),
            r@.gpu_usage == gpu_usage@.map_values(|u: u32| clamp_full(u)),
            r@.gpu_temperature == gpu_temperature@,
            r@.cpu_temperature == cpu_temperature,
    {
        let cpu = clamp_all(cpu_usage);
        let gpu = clamp_all(gpu_usage);
        ResourceSnapshot {
            available_memory,
            cpu_usage: cpu,
            gpu_usage: gpu,
            gpu_temperature,
            cpu_temperature,
        }
    }

    /// A copy with the same abstract value.
    pub fn duplicate(&self) -> (r: ResourceSnapshot)
        ensures
            r@ == self@,
    {
        ResourceSnapshot {
            available_memory: self.available_memory,
            cpu_usage: copy_readings(&self.cpu_usage),
            gpu_usage: copy_readings(&self.gpu_usage),
            gpu_temperature: copy_readings(&self.gpu_temperature),
            cpu_temperature: self.cpu_temperature,
        }
    }

    /// The mean CPU utilization, in hundredths of a percent.
    pub fn mean_cpu(&self) -> (r: u32)
        requires
            self.wf(),
        ensures
            r as int == spec_mean(self@.cpu_usage),
    {
        proof {
            assert(self@.cpu_usage == self.cpu_usage@);
        }
        mean_readings(&self.cpu_usage)
    }

    /// The mean GPU utilization, in hundredths of a percent.
    pub fn mean_gpu(&self) -> (r: u32)
        requires
            self.wf(),
        ensures
            r as int == spec_mean(self@.gpu_usage),
    {
        proof {
            assert(self@.gpu_usage == self.gpu_usage@);
        }
        mean_readings(&self.gpu_usage)
    }
}

/// A reading clamped to full scale.
pub open spec fn clamp_full(u: u32) -> u32 {
    if u > 10000 {
        10000u32
    } else {
        u
    }
}

fn clamp_all(v: Vec<u32>) -> (r: Vec<u32>)
    ensures
        r@ == v@.map_values(|u: u32| clamp_full(u)),
        forall|i: int| 0 <= i < r@.len() ==> r@[i] <= 10000,
{
    let mut out: Vec<u32> = Vec::new();
    let mut i: usize = 0;
    proof {
        assert(out@ =~= v@.take(0).map_values(|u: u32| clamp_full(u)));
    }
    while i < v.len()
        invariant
            i <= v@.len(),
            out@ == v@.take(i as int).map_values(|u: u32| clamp_full(u)),
        decreases v@.len() - i,
    {
        let u = v[i];
        if u > 10000 {
            out.push(10000);
        } else {
            out.push(u);
        }
        proof {
            assert(v@.take(i + 1).map_values(|u: u32| clamp_full(u)) =~= v@.take(
                i as int,
            ).map_values(|u: u32| clamp_full(u)).push(clamp_full(v@[i as int])));
        }
        i = i + 1;
    }
    proof {
        assert(v@.take(v@.len() as int) =~= v@);
        assert forall|i: int| 0 <= i < out@.len() implies out@[i] <= 10000 by {
            assert(out@[i] == clamp_full(v@[i]));
        }
    }
    out
}

fn copy_readings(v: &Vec<u32>) -> (r: Vec<u32>)
    ensures
        r@ == v@,
{
    let mut out: Vec<u32> = Vec::new();
    let mut i: usize = 0;
    while i < v.len()
        invariant
            i <= v@.len(),
            out@ == v@.take(i as int),
        decreases v@.len() - i,
    {
        out.push(v[i]);
        proof {
            assert(out@ =~= v@.take(i + 1));
        }
        i = i + 1;
    }
    proof {
        assert(v@.take(v@.len() as int) =~= v@);
    }
    out
}

/// A vector of `n` idle readings.
fn zero_readings(n: usize) -> (r: Vec<u32>)
    ensures
        r@.len() == n,
        forall|i: int| 0 <= i < n ==> r@[i] == 0,
{
    let mut out: Vec<u32> = Vec::new();
    let mut i: usize = 0;
    while i < n
        invariant
            i <= n,
            out@.len() == i,
            forall|k: int| 0 <= k < i ==> out@[k] == 0,
        decreases n - i,
    {
        out.push(0);
        i = i + 1;
    }
    out
}

/// The floor of the mean reading.
fn mean_readings(v: &Vec<u32>) -> (r: u32)
    requires
        forall|i: int| 0 <= i < v@.len() ==> v@[i] <= 10000,
    ensures
        r as int == spec_mean(v@),
        r <= 10000,
{
    let n = v.len();
    if n == 0 {
        return 0;
    }
    let mut total: u128 = 0;
    let mut i: usize = 0;
    proof {
        assert(sum_of(v@.take(0)) == 0);
    }
    while i < n
        invariant
            i <= n,
            n == v@.len(),
            forall|k: int| 0 <= k < v@.len() ==> v@[k] <= 10000,
            total as int == sum_of(v@.take(i as int)),
            total as int <= 10000 * (i as int),
        decreases n - i,
    {
        proof {
            assert(v@.take(i + 1).drop_last() =~= v@.take(i as int));
            assert(v@.take(i + 1).last() == v@[i as int]);
            assert(10000 * (i as int) + 10000 == 10000 * (i as int + 1)) by (nonlinear_arith);
            assert(10000 * (i as int + 1) <= 10000 * (u64::MAX as int)) by (nonlinear_arith)
                requires
                    i as int + 1 <= u64::MAX as int,
            ;
        }
        total = total + v[i] as u128;
        i = i + 1;
    }
    proof {
        assert(v@.take(n as int) =~= v@);
        lemma_sum_bound(v@, 10000);
        assert(sum_of(v@) / (n as int) <= 10000) by (nonlinear_arith)
            requires
                n > 0,
                0 <= sum_of(v@) <= 10000 * (n as int),
        ;
    }
    let m = total / (n as u128);
    proof {
        assert(m as int == sum_of(v@) / (n as int));
        assert(m <= 10000);
    }
    m as u32
}

/// Holds the latest snapshot; a failed sample keeps the previous one.
pub struct ResourceMonitor {
    pub hardware: SystemHardware,
    pub current: ResourceSnapshot,
}

impl ResourceMonitor {
    pub open spec fn wf(&self) -> bool {
        self.current.wf()
    }

    /// A monitor that starts from an idle snapshot sized to the hardware.
    pub fn new(hardware: SystemHardware) -> (r: ResourceMonitor)
        ensures
            r.wf(),
            r.hardware == hardware,
            r.current@.cpu_usage.len() == hardware.cpu_cores,
            r.current@.gpu_usage.len() == hardware.gpu_count,
            r.current@.gpu_temperature.len() == hardware.gpu_count,
            forall|i: int| 0 <= i < hardware.cpu_cores ==> r.current@.cpu_usage[i] == 0,
            forall|i: int| 0 <= i < hardware.gpu_count ==> r.current@.gpu_usage[i] == 0,
            forall|i: int| 0 <= i < hardware.gpu_count ==> r.current@.gpu_temperature[i] == 0,
            r.current@.available_memory == 0,
            r.current@.cpu_temperature == 0,
    {
        ResourceMonitor {
            hardware,
            current: ResourceSnapshot {
                available_memory: 0,
                cpu_usage: zero_readings(hardware.cpu_cores),
                gpu_usage: zero_readings(hardware.gpu_count),
                gpu_temperature: zero_readings(hardware.gpu_count),
                cpu_temperature: 0,
            },
        }
    }

    /// Takes a sampling outcome: a fresh snapshot replaces the current one
    /// wholesale; a failed sample leaves the previous snapshot standing and
    /// reports that it did.
    pub fn apply_sample(&mut self, sample: Result<ResourceSnapshot, String>) -> (kept: bool)
        requires
            old(self).wf(),
        ensures
            final(self).wf(),
            final(self).hardware == old(self).hardware,
            match sample {
                Ok(s) => {
                    &&& !kept
                    &&& final(self).current@.available_memory == s@.available_memory
                    &&& final(self).current@.cpu_usage == s@.cpu_usage.map_values(
                        |u: u32| clamp_full(u),
                    )
                    &&& final(self).current@.gpu_usage == s@.gpu_usage.map_values(
                        |u: u32| clamp_full(u),
                    )
                    &&& final(self).current@.gpu_temperature == s@.gpu_temperature
                    &&& final(self).current@.cpu_temperature == s@.cpu_temperature
                },
                Err(_) => kept && final(self).current@ == old(self).current@,
            },
    {
        match sample {
            Ok(s) => {
                let snap = ResourceSnapshot::new(
                    s.available_memory,
                    s.cpu_usage,
                    s.gpu_usage,
                    s.gpu_temperature,
                    s.cpu_temperature,
                );
                proof {
                    assert(snap@.cpu_usage =~= s@.cpu_usage.map_values(|u: u32| clamp_full(u)));
                }
                self.current = snap;
                false
            },
            Err(_) => true,
        }
    }

    /// A copy of the latest snapshot.
    pub fn current_snapshot(&self) -> (r: ResourceSnapshot)
        ensures
            r@ == self.current@,
    {
        self.current.duplicate()
    }
}

} // verus!
