//! The limits that the vendor's own tool puts on a curve. They are advice: a
//! curve outside them can still be installed.

use crate::board::Fan;
use crate::curve::Curve;
use vstd::prelude::*;

verus! {

/// Why a curve is outside the limits: the first point at fault, and what is
/// wrong with it.
#[derive(Debug, Clone, Copy, PartialEq, Eq, Structural)]
pub enum UnsafeCurveError {
    TempOutOfRange(u8),
    SpeedTooLow(u8),
}

/// The lowest temperature allowed at point `i`.
pub open spec fn min_temp(i: int) -> int {
    30 + 10 * i
}

/// The highest temperature allowed at point `i`.
pub open spec fn max_temp(i: int) -> int {
    39 + 10 * i
}

/// The lowest speed allowed for `fan` at point `i`.
pub open spec fn min_speed(fan: Fan, i: int) -> int {
    if i <= 3 {
        0
    } else if i == 4 {
        match fan {
            Fan::Cpu => 31,
            Fan::Gpu => 34,
        }
    } else if i == 5 {
        match fan {
            Fan::Cpu => 49,
            Fan::Gpu => 51,
        }
    } else {
        match fan {
            Fan::Cpu => 56,
            Fan::Gpu => 61,
        }
    }
}

/// The temperature of point `i` lies in the band of that point.
pub open spec fn temp_in_range(bytes: Seq<u8>, i: int) -> bool {
    min_temp(i) <= bytes[i] <= max_temp(i)
}

/// The speed of point `i` is at least the floor for `fan` there, and at
/// least the speed of the point before.
pub open spec fn speed_high_enough(bytes: Seq<u8>, fan: Fan, i: int) -> bool {
    &&& bytes[i + 8] >= min_speed(fan, i)
    &&& i > 0 ==> bytes[i + 8] >= bytes[i + 7]
}

/// Point `i` is within the limits for `fan`.
pub open spec fn point_safe(bytes: Seq<u8>, fan: Fan, i: int) -> bool {
    temp_in_range(bytes, i) && speed_high_enough(bytes, fan, i)
}

/// The first point from `from` on that is outside the limits for `fan`; 8
/// where there is none.
pub open spec fn first_unsafe(bytes: Seq<u8>, fan: Fan, from: int) -> int
    decreases 8 - from,
{
    if from >= 8 {
        8
    } else if point_safe(bytes, fan, from) {
        first_unsafe(bytes, fan, from + 1)
    } else {
        from
    }
}

/// The verdict on a curve: the first point outside the limits, its
/// temperature looked at before its speed; `Ok` where every point is within.
pub open spec fn verdict(bytes: Seq<u8>, fan: Fan) -> Result<(), UnsafeCurveError> {
    let n = first_unsafe(bytes, fan, 0);
    if n >= 8 {
        Ok(())
    } else if !temp_in_range(bytes, n) {
        Err(UnsafeCurveError::TempOutOfRange(n as u8))
    } else {
        Err(UnsafeCurveError::SpeedTooLow(n as u8))
    }
}

/// What [`first_unsafe`] finds: a point from `from` on that is outside the
/// limits, with none before it, or 8.
pub proof fn lemma_first_unsafe(bytes: Seq<u8>, fan: Fan, from: int)
    requires
        0 <= from <= 8,
    ensures
        from <= first_unsafe(bytes, fan, from) <= 8,
        forall|i: int| from <= i < first_unsafe(bytes, fan, from) ==> point_safe(bytes, fan, i),
        first_unsafe(bytes, fan, from) < 8 ==> !point_safe(
            bytes,
            fan,
            first_unsafe(bytes, fan, from),
        ),
    decreases 8 - from,
{
    if from < 8 && point_safe(bytes, fan, from) {
        lemma_first_unsafe(bytes, fan, from + 1);
    }
}

/// A curve is within the limits exactly when each of its points is; an
/// error names a point that is outside them, and every point before it is
/// within.
pub proof fn lemma_verdict(bytes: Seq<u8>, fan: Fan)
    ensures
        match verdict(bytes, fan) {
            Ok(()) => forall|i: int| 0 <= i < 8 ==> point_safe(bytes, fan, i),
            Err(UnsafeCurveError::TempOutOfRange(n)) => {
                &&& n < 8
                &&& forall|i: int| 0 <= i < n ==> point_safe(bytes, fan, i)
                &&& !temp_in_range(bytes, n as int)
            },
            Err(UnsafeCurveError::SpeedTooLow(n)) => {
                &&& n < 8
                &&& forall|i: int| 0 <= i < n ==> point_safe(bytes, fan, i)
                &&& temp_in_range(bytes, n as int)
                &&& !speed_high_enough(bytes, fan, n as int)
            },
        },
{
    lemma_first_unsafe(bytes, fan, 0);
}

/// The limits rise with the points: a later point has a higher band of
/// temperatures, and its floor of speed is no lower.
pub proof fn lemma_limits_rise(fan: Fan, i: int, j: int)
    requires
        0 <= i < j < 8,
    ensures
        max_temp(i) < min_temp(j),
        min_speed(fan, i) <= min_speed(fan, j),
{
}

/// A curve within the limits rises: from point to point the temperature
/// grows and the speed does not fall.
pub proof fn lemma_safe_curve_rises(bytes: Seq<u8>, fan: Fan, i: int, j: int)
    requires
        verdict(bytes, fan) is Ok,
        0 <= i <= j < 8,
    ensures
        i < j ==> bytes[i] < bytes[j],
        bytes[i + 8] <= bytes[j + 8],
    decreases j - i,
{
    lemma_verdict(bytes, fan);
    assert(point_safe(bytes, fan, i));
    assert(point_safe(bytes, fan, j));
    if i < j {
        lemma_safe_curve_rises(bytes, fan, i, j - 1);
    }
}

impl Curve {
    /// Checks the curve against the limits for `fan`, point by point from
    /// the first, and reports the first point outside them.
    pub fn check_safety(&self, fan: Fan) -> (r: Result<(), UnsafeCurveError>)
        ensures
            r == verdict(self@, fan),
    {
        let mut last_speed: u8 = 0;
        let mut i: u8 = 0;
        while i < 8
            invariant
                i <= 8,
                first_unsafe(self@, fan, 0) == first_unsafe(self@, fan, i as int),
                i > 0 ==> last_speed == self.speed(i - 1),
                i == 0 ==> last_speed == 0,
            decreases 8 - i,
        {
            let (temp, speed) = self.point(i);
            let min_temp: u8 = (i * 10) + 30;
            let max_temp: u8 = (i * 10) + 39;
            let min_speed: u8 = if i <= 3 {
                0
            } else if i == 4 {
                match fan {
                    Fan::Cpu => 31,
                    Fan::Gpu => 34,
                }
            } else if i == 5 {
                match fan {
                    Fan::Cpu => 49,
                    Fan::Gpu => 51,
                }
            } else {
                match fan {
                    Fan::Cpu => 56,
                    Fan::Gpu => 61,
                }
            };
            if temp < min_temp || temp > max_temp {
                return Err(UnsafeCurveError::TempOutOfRange(i));
            }
            if speed < min_speed || speed < last_speed {
                return Err(UnsafeCurveError::SpeedTooLow(i));
            }
            last_speed = speed;
            i = i + 1;
        }
        Ok(())
    }
}

} // verus!
