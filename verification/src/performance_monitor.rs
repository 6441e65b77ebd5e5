use vstd::prelude::*;
use std::time::Duration;
use std::time::Instant;

verus! {

#[verifier::external_type_specification]
#[verifier::external_body]
pub struct ExInstant(Instant);

/// Calls `std::time::Instant::now`: the current time, which depends on the
/// clock; nothing is stated of it.
#[verifier::external_body]
fn instant_now() -> (r: Instant) {
    Instant::now()
}

/// Calls `std::time::Instant::elapsed`: the time from `start` until now (the
/// same as `Instant::now().duration_since(start)`). It depends on the clock;
/// nothing is stated of it.
#[verifier::external_body]
fn instant_elapsed(start: &Instant) -> (r: Duration) {
    start.elapsed()
}

/// Calls `std::time::Duration::as_nanos`: the whole number of nanoseconds in
/// `d`. Durations are opaque here, so nothing is stated of it.
#[verifier::external_body]
fn duration_as_nanos(d: &Duration) -> (r: u128) {
    d.as_nanos()
}

/// The sum of the samples in `s`.
pub open spec fn seq_sum(s: Seq<u64>) -> int
    decreases s.len(),
{
    if s.len() == 0 {
        0
    } else {
        seq_sum(s.drop_last()) + s.last()
    }
}

/// Keeps the last `N` samples of a duration, in nanoseconds, and their
/// average, which it recomputes each time the cursor comes round to the
/// first sample.
pub struct SmoothingBuffer<const N: usize> {
    data: Vec<u64>,
    value: u64,
    first: bool,
    index: usize,
}

impl<const N: usize> SmoothingBuffer<N> {
    /// The samples.
    pub closed spec fn samples(&self) -> Seq<u64> {
        self.data@
    }

    /// The average last computed.
    pub closed spec fn average(&self) -> u64 {
        self.value
    }

    /// Whether every new sample replaces all the samples.
    pub closed spec fn is_first(&self) -> bool {
        self.first
    }

    /// The place of the next sample.
    pub closed spec fn cursor(&self) -> usize {
        self.index
    }

    /// There is room for `N` samples and the cursor points at one of them.
    pub closed spec fn wf(&self) -> bool {
        0 < N && self.data@.len() == N && self.index < N
    }

    /// A well-formed buffer has room for `N > 0` samples and its cursor points at one.
    pub proof fn lemma_wf(&self)
        requires
            self.wf(),
        ensures
            N > 0,
            self.samples().len() == N,
            self.cursor() < N,
    {
    }

    /// `self` is what `prev` becomes when `value` is set.
    pub open spec fn set_from(self, prev: Self, value: u64) -> bool {
        let samples = if prev.is_first() {
            Seq::new(N as nat, |i: int| value)
        } else {
            prev.samples().update(prev.cursor() as int, value)
        };
        &&& self.wf()
        &&& self.samples() == samples
        &&& self.average() == if prev.cursor() == 0 {
            (seq_sum(samples) / (N as int)) as u64
        } else {
            prev.average()
        }
        &&& self.is_first() == prev.is_first()
        &&& self.cursor() == (prev.cursor() + 1) % (N as int)
    }

    /// An empty buffer: every sample and the average are zero. It can take
    /// samples when it has room for at least one.
    pub fn new() -> (r: Self)
        ensures
            r.wf() <==> 0 < N,
            r.samples() == Seq::new(N as nat, |i: int| 0u64),
            r.average() == 0,
            r.is_first(),
            r.cursor() == 0,
    {
        let data: Vec<u64> = vec![0u64; N];
        assert(data@ =~= Seq::new(N as nat, |i: int| 0u64));
        Self { data, first: true, index: 0, value: 0 }
    }

    /// Records a sample: while the buffer is fresh it fills every place,
    /// otherwise the one at the cursor. When the cursor stands at the first
    /// place, the average is recomputed. The cursor then moves on.
    pub fn set(&mut self, value: u64)
        requires
            old(self).wf(),
        ensures
            final(self).set_from(*old(self), value),
    {
        let ghost prev = *self;
        if self.first {
            let mut i: usize = 0;
            while i < N
                invariant
                    0 <= i <= N,
                    self.data@.len() == N,
                    self.index == prev.index,
                    self.value == prev.value,
                    self.first == prev.first,
                    forall|j: int| 0 <= j < i ==> self.data@[j] == value,
                decreases N - i,
            {
                self.data.set(i, value);
                i = i + 1;
            }
            assert(self.data@ =~= Seq::new(N as nat, |j: int| value));
        } else {
            self.data.set(self.index, value);
        }
        if self.index == 0 {
            let sum = sum_samples(&self.data);
            proof {
                lemma_sum_bound(self.data@);
                assert(seq_sum(self.data@) / (N as int) <= u64::MAX) by (nonlinear_arith)
                    requires
                        seq_sum(self.data@) <= (N as int) * (u64::MAX as int),
                        N > 0,
                        seq_sum(self.data@) >= 0;
            }
            self.value = (sum / (N as u128)) as u64;
        }
        self.index = (self.index + 1) % N;
    }

    /// The average last computed.
    pub fn get(&self) -> (r: u64)
        ensures
            r == self.average(),
    {
        return self.value;
    }
}

/// Sums are never negative and never exceed the count times the largest sample.
pub proof fn lemma_sum_bound(s: Seq<u64>)
    ensures
        0 <= seq_sum(s) <= s.len() * (u64::MAX as int),
    decreases s.len(),
{
    if s.len() > 0 {
        lemma_sum_bound(s.drop_last());
        assert(s.len() * (u64::MAX as int) == (s.len() - 1) * (u64::MAX as int) + u64::MAX)
            by (nonlinear_arith);
    }
}

/// The sum of the samples.
fn sum_samples(data: &Vec<u64>) -> (r: u128)
    requires
        data@.len() <= usize::MAX,
    ensures
        r == seq_sum(data@),
{
    let mut acc: u128 = 0;
    let mut i: usize = 0;
    while i < data.len()
        invariant
            0 <= i <= data@.len(),
            acc == seq_sum(data@.subrange(0, i as int)),
        decreases data@.len() - i,
    {
        proof {
            lemma_sum_bound(data@.subrange(0, i as int));
            assert(data@.subrange(0, i as int + 1).drop_last() =~= data@.subrange(0, i as int));
            assert((i as int) * (u64::MAX as int) + u64::MAX <= u128::MAX) by (nonlinear_arith)
                requires
                    i < usize::MAX;
        }
        acc = acc + data[i] as u128;
        i = i + 1;
    }
    assert(data@.subrange(0, i as int) =~= data@);
    acc
}

/// Runs `f` once and gives the time, in nanoseconds, that the call took (at
/// most `u64::MAX`). The time depends on the clock and is not stated.
pub fn measure<F: FnOnce()>(f: F) -> (r: u64)
    requires
        f.requires(()),
    ensures
        f.ensures((), ()),
{
    let time_tick_pre = instant_now();
    f();
    let elapsed = instant_elapsed(&time_tick_pre);
    nanos_to_u64(duration_as_nanos(&elapsed))
}

/// A count of nanoseconds held in a `u64`: the count itself when it fits,
/// `u64::MAX` when it does not.
pub open spec fn clamped_nanos(nanos: u128) -> u64 {
    if nanos > u64::MAX as u128 {
        u64::MAX
    } else {
        nanos as u64
    }
}

/// A count of nanoseconds held in a `u64`, clamped to `u64::MAX`.
pub fn nanos_to_u64(nanos: u128) -> (r: u64)
    ensures
        r == clamped_nanos(nanos),
{
    if nanos > u64::MAX as u128 {
        u64::MAX
    } else {
        nanos as u64
    }
}

/// Smoothed timings of the simulation, the rendering and the whole frame.
pub struct PerformanceMonitor {
    simulation_duration: SmoothingBuffer<60>,
    rendering_duration: SmoothingBuffer<60>,
    frame_duration: SmoothingBuffer<60>,
}

impl PerformanceMonitor {
    pub closed spec fn simulation_samples(&self) -> SmoothingBuffer<60> {
        self.simulation_duration
    }

    pub closed spec fn rendering_samples(&self) -> SmoothingBuffer<60> {
        self.rendering_duration
    }

    pub closed spec fn frame_samples(&self) -> SmoothingBuffer<60> {
        self.frame_duration
    }

    pub open spec fn wf(&self) -> bool {
        self.simulation_samples().wf() && self.rendering_samples().wf() && self.frame_samples().wf()
    }

    /// A monitor whose timings are all zero.
    pub fn new() -> (r: Self)
        ensures
            r.wf(),
            r.simulation_samples().average() == 0,
            r.rendering_samples().average() == 0,
            r.frame_samples().average() == 0,
            r.simulation_samples().is_first(),
            r.rendering_samples().is_first(),
            r.frame_samples().is_first(),
            r.simulation_samples().cursor() == 0,
            r.rendering_samples().cursor() == 0,
            r.frame_samples().cursor() == 0,
            r.simulation_samples().samples() == Seq::new(60, |i: int| 0u64),
            r.rendering_samples().samples() == Seq::new(60, |i: int| 0u64),
            r.frame_samples().samples() == Seq::new(60, |i: int| 0u64),
    {
        Self {
            simulation_duration: SmoothingBuffer::new(),
            rendering_duration: SmoothingBuffer::new(),
            frame_duration: SmoothingBuffer::new(),
        }
    }

    /// Runs `f` and records how long it took as a simulation sample.
    pub fn meassure_simulation<F: FnOnce()>(&mut self, f: F)
        requires
            old(self).wf(),
            f.requires(()),
        ensures
            f.ensures((), ()),
            exists|v: u64| final(self).simulation_samples().set_from(old(self).simulation_samples(), v),
            final(self).rendering_samples() == old(self).rendering_samples(),
            final(self).frame_samples() == old(self).frame_samples(),
    {
        let ghost prev = self.simulation_samples();
        let elapsed = measure(f);
        self.simulation_duration.set(elapsed);
        assert(self.simulation_samples().set_from(prev, elapsed));
    }

    /// Runs `f` and records how long it took as a rendering sample.
    pub fn meassure_rendering<F: FnOnce()>(&mut self, f: F)
        requires
            old(self).wf(),
            f.requires(()),
        ensures
            f.ensures((), ()),
            exists|v: u64| final(self).rendering_samples().set_from(old(self).rendering_samples(), v),
            final(self).simulation_samples() == old(self).simulation_samples(),
            final(self).frame_samples() == old(self).frame_samples(),
    {
        let ghost prev = self.rendering_samples();
        let elapsed = measure(f);
        self.rendering_duration.set(elapsed);
        assert(self.rendering_samples().set_from(prev, elapsed));
    }

    /// Records the length of a frame, in nanoseconds.
    pub fn meassure_frame(&mut self, frame_nanos: u64)
        requires
            old(self).wf(),
        ensures
            final(self).frame_samples().set_from(old(self).frame_samples(), frame_nanos),
            final(self).simulation_samples() == old(self).simulation_samples(),
            final(self).rendering_samples() == old(self).rendering_samples(),
    {
        self.frame_duration.set(frame_nanos);
    }

    /// The smoothed time of a simulation step, in nanoseconds.
    pub fn get_simulation_duration(&self) -> (r: u64)
        ensures
            r == self.simulation_samples().average(),
    {
        return self.simulation_duration.get();
    }

    /// The smoothed time of rendering, in nanoseconds.
    pub fn get_rendering_duration(&self) -> (r: u64)
        ensures
            r == self.rendering_samples().average(),
    {
        return self.rendering_duration.get();
    }

    /// The smoothed length of a frame, in nanoseconds.
    pub fn get_frame_duration(&self) -> (r: u64)
        ensures
            r == self.frame_samples().average(),
    {
        return self.frame_duration.get();
    }
}

} // verus!
