//! Rolling time slices: consecutive windows of one width, from a start time
//! up to the moment the list was made.

use std::time::Duration;
use std::time::SystemTime;
use vstd::prelude::*;

verus! {

/// Trusted: std's `SystemTime`, a reading of the system clock. Nothing is
/// known of what a value holds.
#[verifier::external_type_specification]
#[verifier::external_body]
pub struct ExSystemTime(SystemTime);

/// Trusted: `SystemTime::now`, the current reading of the system clock.
/// Nothing is claimed of the reading.
#[verifier::external_body]
fn clock_reading() -> (t: SystemTime) {
    SystemTime::now()
}

/// Trusted: `SystemTime::duration_since` against the Unix epoch. Gives the
/// time elapsed since the epoch, or nothing where the reading lies before
/// it. Nothing is claimed of the duration.
#[verifier::external_body]
fn elapsed_since_epoch(t: &SystemTime) -> (d: Option<Duration>) {
    match t.duration_since(std::time::UNIX_EPOCH) {
        Ok(d) => Some(d),
        Err(_) => None,
    }
}

/// Trusted: `Duration::as_secs`, the whole seconds of a duration. Nothing
/// is claimed of their number.
pub assume_specification[ Duration::as_secs ](d: &Duration) -> (secs: u64)
;

/// A list of time windows, each a pair of its first second and of the first
/// second after it.
pub struct TimeSlice {
    pub all_time: Vec<(u64, u64)>,
}

/// Whether a window holds a time: from its first second on, and before its
/// end.
pub open spec fn slice_holds(slice: (u64, u64), time: u64) -> bool {
    slice.0 <= time < slice.1
}

/// The first window of a list that holds a time.
pub open spec fn first_holding(slices: Seq<(u64, u64)>, time: u64) -> Option<(u64, u64)>
    decreases slices.len(),
{
    if slices.len() == 0 {
        None
    } else if slice_holds(slices[0], time) {
        Some(slices[0])
    } else {
        first_holding(slices.drop_first(), time)
    }
}

/// Whether a list of windows is the slicing of the time from `start` up to
/// `now` into windows of width `step`: window `k` runs from
/// `start + k * step` to `start + (k + 1) * step`, every window begins before
/// `now` and ends within the range of `u64`, and the list stops only where
/// the next window would begin at `now` or later, or would end beyond that
/// range. With a width of zero there are no windows.
pub open spec fn is_slicing(slices: Seq<(u64, u64)>, start: u64, step: u32, now: u64) -> bool {
    let n = slices.len() as int;
    &&& forall|k: int|
        0 <= k < n ==> (#[trigger] slices[k]).0 == start + k * step && slices[k].1 == start + (k
            + 1) * step
    &&& forall|k: int| 0 <= k < n ==> (#[trigger] slices[k]).0 < now
    &&& step == 0 ==> n == 0
    &&& step > 0 ==> start + n * step >= now || start + (n + 1) * step > u64::MAX
}

/// A start, a width and a moment have one slicing.
pub proof fn lemma_slicing_unique(
    a: Seq<(u64, u64)>,
    b: Seq<(u64, u64)>,
    start: u64,
    step: u32,
    now: u64,
)
    requires
        is_slicing(a, start, step, now),
        is_slicing(b, start, step, now),
    ensures
        a == b,
{
    let n = a.len() as int;
    let m = b.len() as int;
    if step > 0 {
        if n < m {
            assert(b[n].0 == start + n * step);
            assert(b[n].1 == start + (n + 1) * step);
        } else if m < n {
            assert(a[m].0 == start + m * step);
            assert(a[m].1 == start + (m + 1) * step);
        }
    }
    assert(n == m);
    assert forall|k: int| 0 <= k < n implies a[k] == b[k] by {
        assert(a[k].0 == b[k].0);
        assert(a[k].1 == b[k].1);
    }
    assert(a =~= b);
}

/// In a slicing, a time is held by the window it falls into and by no
/// other: the windows follow one another without gap or overlap.
pub proof fn lemma_slicing_holds(
    slices: Seq<(u64, u64)>,
    start: u64,
    step: u32,
    now: u64,
    time: u64,
    k: int,
)
    requires
        is_slicing(slices, start, step, now),
        0 <= k < slices.len(),
        slice_holds(slices[k], time),
    ensures
        first_holding(slices, time) == Some(slices[k]),
    decreases k,
{
    if k == 0 {
    } else {
        assert(slices[0].1 == start + step);
        assert(slices[k].0 == start + k * step);
        assert(start + step <= start + k * step) by (nonlinear_arith)
            requires
                k >= 1,
                step >= 0,
        ;
        assert(!slice_holds(slices[0], time));
        let rest = slices.drop_first();
        let next = (start + step) as u64;
        assert forall|j: int| 0 <= j < rest.len() implies (#[trigger] rest[j]).0 == next + j * step
            && rest[j].1 == next + (j + 1) * step && rest[j].0 < now by {
            assert(rest[j] == slices[j + 1]);
            assert(start + (j + 1) * step == start + step + j * step) by (nonlinear_arith);
            assert(start + (j + 1 + 1) * step == start + step + (j + 1) * step)
                by (nonlinear_arith);
        }
        let n = slices.len() as int;
        assert(start + n * step == next + (n - 1) * step) by (nonlinear_arith)
            requires
                next == start + step,
        ;
        assert(start + (n + 1) * step == next + n * step) by (nonlinear_arith)
            requires
                next == start + step,
        ;
        assert(is_slicing(rest, next, step, now));
        assert(rest[k - 1] == slices[k]);
        lemma_slicing_holds(rest, next, step, now, time, k - 1);
    }
}

impl TimeSlice {
    /// The first window that holds a time, if any does.
    pub fn get_time_slice(&self, time: u64) -> (r: Option<(u64, u64)>)
        ensures
            r == first_holding(self.all_time@, time),
    {
        let ghost all = self.all_time@;
        let mut i: usize = 0;
        assert(all.skip(0) =~= all);
        while i < self.all_time.len()
            invariant
                i <= self.all_time.len(),
                all == self.all_time@,
                first_holding(all, time) == first_holding(all.skip(i as int), time),
            decreases self.all_time.len() - i,
        {
            let t = self.all_time[i];
            proof {
                assert(all.skip(i as int)[0] == t);
                assert(all.skip(i as int).drop_first() =~= all.skip(i as int + 1));
            }
            if time >= t.0 && time < t.1 {
                return Some((t.0, t.1));
            }
            i += 1;
        }
        None
    }

    /// The slicing of the time from `time_start` up to `now` into windows
    /// of width `time_step`.
    pub fn up_to(time_start: u64, time_step: u32, now: u64) -> (r: TimeSlice)
        ensures
            is_slicing(r.all_time@, time_start, time_step, now),
    {
        let mut result: Vec<(u64, u64)> = Vec::new();
        if time_step == 0 {
            return TimeSlice { all_time: result };
        }
        let mut beginning = time_start;
        assert(beginning == time_start + result@.len() * time_step) by (nonlinear_arith)
            requires
                beginning == time_start,
                result@.len() == 0,
        ;
        while beginning < now
            invariant
                time_step > 0,
                beginning == time_start + result@.len() * time_step,
                forall|k: int|
                    0 <= k < result@.len() ==> (#[trigger] result@[k]).0 == time_start + k
                        * time_step && result@[k].1 == time_start + (k + 1) * time_step,
                forall|k: int| 0 <= k < result@.len() ==> (#[trigger] result@[k]).0 < now,
            ensures
                is_slicing(result@, time_start, time_step, now),
            decreases
                    (if beginning < now {
                        now - beginning
                    } else {
                        0
                    }),
        {
            let ghost n = result@.len() as int;
            match beginning.checked_add(time_step as u64) {
                Some(end) => {
                    assert(time_start + (n + 1) * time_step == end) by (nonlinear_arith)
                        requires
                            end == beginning + time_step,
                            beginning == time_start + n * time_step,
                    ;
                    result.push((beginning, end));
                    beginning = end;
                },
                None => {
                    assert(time_start + (n + 1) * time_step > u64::MAX) by (nonlinear_arith)
                        requires
                            beginning + time_step > u64::MAX,
                            beginning == time_start + n * time_step,
                    ;
                    break ;
                },
            }
        }
        TimeSlice { all_time: result }
    }

    /// The slicing of the time from `time_start` up to the present moment
    /// into windows of width `time_step`. The moment is read from the system
    /// clock, in whole seconds since the Unix epoch; a clock that stands
    /// before the epoch counts as standing at it.
    pub fn new(time_start: u64, time_step: u32) -> (r: TimeSlice)
        ensures
            exists|now: u64| is_slicing(r.all_time@, time_start, time_step, now),
    {
        let reading = clock_reading();
        let now: u64 = match elapsed_since_epoch(&reading) {
            Some(d) => d.as_secs(),
            None => 0,
        };
        let r = TimeSlice::up_to(time_start, time_step, now);
        assert(is_slicing(r.all_time@, time_start, time_step, now));
        r
    }
}

} // verus!
