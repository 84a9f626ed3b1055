//! Alerts on parameters that jump away from their recent level.

use vstd::prelude::*;

verus! {

/// How many of the latest values make up the recent level.
pub const WINDOW: usize = 10;

/// How serious an alert is.
#[derive(Clone, Copy, Debug, PartialEq, Eq, Structural)]
pub enum AlertLevel {
    Info,
    Warning,
    Critical,
}

/// A finding for an operator to look at.
#[derive(Clone, Debug, PartialEq, Eq)]
pub struct Alert {
    pub level: AlertLevel,
    pub message: String,
}

/// The sum of `values`.
pub open spec fn sum_of_values(values: Seq<u8>) -> nat
    decreases values.len(),
{
    if values.len() == 0 {
        0
    } else {
        sum_of_values(values.drop_last()) + values.last() as nat
    }
}

/// The latest values of a series: its last ten, or all of it if it is
/// shorter.
pub open spec fn recent(values: Seq<u8>) -> Seq<u8> {
    if values.len() <= WINDOW {
        values
    } else {
        values.subrange(values.len() - WINDOW, values.len() as int)
    }
}

/// The recent level of a series: the sum of its latest values over ten,
/// rounded down.  A series shorter than ten counts as filled up with zeros.
pub open spec fn recent_average(values: Seq<u8>) -> nat {
    sum_of_values(recent(values)) / WINDOW as nat
}

/// Whether `current_value` is more than twice the recent level of `values`.
pub open spec fn is_spike(values: Seq<u8>, current_value: u8) -> bool {
    current_value > 2 * recent_average(values)
}

/// The checks that watch a template's parameters.
pub struct AnomalyDetection {}

impl AnomalyDetection {
    /// Raises a critical alert if `current_value` is more than twice the
    /// average of the last ten `values`, and nothing otherwise.
    pub fn check_parameter_spike(values: &[u8], current_value: u8) -> (alert: Option<Alert>)
        ensures
            alert is Some <==> is_spike(values@, current_value),
            alert matches Some(a) ==> a.level == AlertLevel::Critical && a.message@
                == "Parameter value doubled compared to recent average"@,
    {
        let n: usize = values.len();
        let start: usize = if n <= WINDOW {
            0
        } else {
            n - WINDOW
        };
        let ghost window = recent(values@);
        assert(window =~= values@.subrange(start as int, n as int));
        let mut sum: u32 = 0;
        let mut i: usize = start;
        assert(window.take(0) =~= Seq::<u8>::empty());
        while i < n
            invariant
                start <= i <= n,
                n == values@.len(),
                n - start <= WINDOW,
                window == values@.subrange(start as int, n as int),
                sum == sum_of_values(window.take(i - start)),
                sum <= 255 * (i - start),
            decreases n - i,
        {
            proof {
                let upto = window.take(i - start + 1);
                assert(upto.drop_last() =~= window.take(i - start));
                assert(upto.last() == values@[i as int]);
            }
            sum = sum + values[i] as u32;
            i += 1;
        }
        assert(window.take(n - start) =~= window);
        let average: u32 = sum / WINDOW as u32;
        if current_value as u32 > 2 * average {
            Some(
                Alert {
                    level: AlertLevel::Critical,
                    message: "Parameter value doubled compared to recent average".to_string(),
                },
            )
        } else {
            None
        }
    }
}

} // verus!
