//! Display values.
//!
//! A metric is a magnitude made ready for display: the magnitude itself, its
//! text in human units, and the percentage between 0 and 100 that grades it.

use crate::sensors::{whole, whole_units, Reading, ReadingKind};
use crate::text::{decimal, push_decimal};
use crate::units::{format_size, percent, percent_of, size_text};
use crate::visual::Palette;
use vstd::prelude::*;

verus! {

/// A magnitude made ready for display.
#[derive(Debug)]
pub struct Metric {
    raw: u64,
    unit_string: String,
    percent: u32,
}

/// The mathematical content of a [`Metric`].
pub struct MetricView {
    pub raw: nat,
    pub unit_string: Seq<char>,
    pub percent: nat,
}

impl View for Metric {
    type V = MetricView;

    closed spec fn view(&self) -> MetricView {
        MetricView {
            raw: self.raw as nat,
            unit_string: self.unit_string@,
            percent: self.percent as nat,
        }
    }
}

/// The metric of `used` bytes out of `total`: the size in short, graded by
/// the share of the total that is in use.
pub open spec fn pair_metric(used: nat, total: nat) -> MetricView {
    MetricView { raw: used, unit_string: size_text(used), percent: percent(used, total) }
}

/// The unit in which a kind of reading is shown.
pub open spec fn unit_of(kind: ReadingKind) -> Seq<char> {
    match kind {
        ReadingKind::Temperature => "°C"@,
        ReadingKind::Usage => "%"@,
        ReadingKind::Frequency => "MHz"@,
        ReadingKind::Power => "W"@,
        ReadingKind::Other => Seq::empty(),
    }
}

/// The metric of a value in whole units: the number with its unit, graded
/// by the value itself, where a value above 100 counts as 100.
pub open spec fn value_metric(value: u32, kind: ReadingKind) -> MetricView {
    MetricView {
        raw: value as nat,
        unit_string: decimal(value as nat) + unit_of(kind),
        percent: if value > 100 {
            100
        } else {
            value as nat
        },
    }
}

/// The metric of a reading.  A reading without a value counts as 0.
pub open spec fn reading_metric(reading: Reading) -> MetricView {
    value_metric(whole_units(reading.value), reading.kind)
}

/// A metric in the colour of its grade.
pub open spec fn painted(p: Palette, metric: MetricView) -> Seq<char> {
    p.percent_color(metric.percent) + metric.unit_string + p.reset@
}

impl Metric {
    #[verifier::type_invariant]
    spec fn graded(self) -> bool {
        self.percent <= 100
    }

    /// The metric of `used` bytes out of `total`.
    pub fn from_pair(used: u64, total: u64) -> (metric: Metric)
        ensures
            metric@ == pair_metric(used as nat, total as nat),
    {
        Metric { raw: used, unit_string: format_size(used), percent: percent_of(used, total) }
    }

    /// The metric of a value in whole units.
    pub fn from_value(value: u32, kind: ReadingKind) -> (metric: Metric)
        ensures
            metric@ == value_metric(value, kind),
    {
        let mut unit_string = String::new();
        push_decimal(&mut unit_string, value as u64);
        assert(unit_string@ == decimal(value as nat));
        match kind {
            ReadingKind::Temperature => unit_string.append("°C"),
            ReadingKind::Usage => unit_string.append("%"),
            ReadingKind::Frequency => unit_string.append("MHz"),
            ReadingKind::Power => unit_string.append("W"),
            ReadingKind::Other => {
                assert(unit_string@ + Seq::<char>::empty() == unit_string@);
            },
        }
        let percent: u32 = if value > 100 {
            100
        } else {
            value
        };
        Metric { raw: value as u64, unit_string, percent }
    }

    /// The metric of a reading.
    pub fn from_reading(reading: &Reading) -> (metric: Metric)
        ensures
            metric@ == reading_metric(*reading),
    {
        Metric::from_value(whole(reading.value), reading.kind)
    }

    /// The magnitude.
    pub fn raw(&self) -> (raw: u64)
        ensures
            raw == self@.raw,
    {
        self.raw
    }

    /// The magnitude in human units.
    pub fn unit_string(&self) -> (text: &str)
        ensures
            text@ == self@.unit_string,
    {
        self.unit_string.as_str()
    }

    /// The percentage that grades the magnitude.
    pub fn percent(&self) -> (percent: u32)
        ensures
            percent == self@.percent,
            percent <= 100,
    {
        proof {
            use_type_invariant(self);
        }
        self.percent
    }

    /// The metric in the colour of its grade.
    pub fn paint(&self, p: &Palette) -> (text: String)
        ensures
            text@ == painted(*p, self@),
    {
        let mut text = String::new();
        text.append(p.percent_col(self.percent));
        assert(text@ == p.percent_color(self.percent as nat));
        text.append(self.unit_string.as_str());
        text.append(p.reset);
        text
    }
}

} // verus!
