//! Compact duration and live relative-time presentation. Times are in
//! milliseconds of the shared clock.

use vstd::prelude::*;
use vstd::string::*;

use crate::frame::Frame;
use crate::geometry::Rect;
use crate::numbers::{decimal, decimals_stand_apart, to_decimal};
use crate::strings::same_text;
use crate::style::{plain, Style};
use crate::text::{ascii_clusters, text_width, Text};
use crate::tool_card::held_time;

verus! {

/// Milliseconds in a second.
pub const SECOND_MS: u64 = 1_000;

/// Milliseconds in a minute.
pub const MINUTE_MS: u64 = 60_000;

/// Milliseconds in an hour.
pub const HOUR_MS: u64 = 3_600_000;

/// Milliseconds in a day.
pub const DAY_MS: u64 = 86_400_000;

/// Milliseconds in a week.
pub const WEEK_MS: u64 = 604_800_000;

/// Milliseconds in a month of thirty days.
pub const MONTH_MS: u64 = 2_592_000_000;

/// Milliseconds in a year of 365 days.
pub const YEAR_MS: u64 = 31_536_000_000;

/// What a time display shows.
#[derive(Clone, Copy, Debug, PartialEq, Eq, Structural)]
pub enum Mode {
    /// A compact duration.
    Duration,
    /// An age that keeps counting from the first paint.
    Relative,
    /// Whole seconds since an instant of the clock.
    Elapsed,
}

/// Unit of a relative age.
#[derive(Clone, Copy, Debug, PartialEq, Eq, Structural)]
pub enum RelativeUnit {
    /// Less than a second.
    Now,
    /// Seconds.
    Second,
    /// Minutes.
    Minute,
    /// Hours.
    Hour,
    /// Days.
    Day,
    /// Weeks.
    Week,
    /// Months.
    Month,
    /// Years.
    Year,
}

/// What a label was written for.
#[derive(Clone, Copy, Debug, PartialEq, Eq, Structural)]
pub enum FormatKey {
    /// A duration.
    Duration(u64),
    /// An age, as a count of units.
    Relative(RelativeUnit, u64),
    /// Seconds elapsed.
    Elapsed(u64),
}

/// The mode of a kind.
pub open spec fn mode_of(kind: Seq<char>) -> Mode {
    if kind == "relative"@ {
        Mode::Relative
    } else if kind == "elapsed"@ {
        Mode::Elapsed
    } else {
        Mode::Duration
    }
}

/// The unit an age is shown in: the largest it has reached.
pub open spec fn unit_of(age: u64) -> RelativeUnit {
    if age < SECOND_MS {
        RelativeUnit::Now
    } else if age < MINUTE_MS {
        RelativeUnit::Second
    } else if age < HOUR_MS {
        RelativeUnit::Minute
    } else if age < DAY_MS {
        RelativeUnit::Hour
    } else if age < WEEK_MS {
        RelativeUnit::Day
    } else if age < MONTH_MS {
        RelativeUnit::Week
    } else if age < YEAR_MS {
        RelativeUnit::Month
    } else {
        RelativeUnit::Year
    }
}

/// Length of a unit.
pub open spec fn period(unit: RelativeUnit) -> u64 {
    match unit {
        RelativeUnit::Now => SECOND_MS,
        RelativeUnit::Second => SECOND_MS,
        RelativeUnit::Minute => MINUTE_MS,
        RelativeUnit::Hour => HOUR_MS,
        RelativeUnit::Day => DAY_MS,
        RelativeUnit::Week => WEEK_MS,
        RelativeUnit::Month => MONTH_MS,
        RelativeUnit::Year => YEAR_MS,
    }
}

/// The age at which a unit gives way to the next.
pub open spec fn unit_end(unit: RelativeUnit) -> Option<u64> {
    match unit {
        RelativeUnit::Now => Some(SECOND_MS),
        RelativeUnit::Second => Some(MINUTE_MS),
        RelativeUnit::Minute => Some(HOUR_MS),
        RelativeUnit::Hour => Some(DAY_MS),
        RelativeUnit::Day => Some(WEEK_MS),
        RelativeUnit::Week => Some(MONTH_MS),
        RelativeUnit::Month => Some(YEAR_MS),
        RelativeUnit::Year => None,
    }
}

/// Whole units in an age; none for "now".
pub open spec fn units_in(age: u64) -> u64 {
    age / period(unit_of(age))
}

/// Abbreviation of a unit.
pub open spec fn unit_text(unit: RelativeUnit) -> Seq<char> {
    match unit {
        RelativeUnit::Now => ""@,
        RelativeUnit::Second => "s"@,
        RelativeUnit::Minute => "m"@,
        RelativeUnit::Hour => "h"@,
        RelativeUnit::Day => "d"@,
        RelativeUnit::Week => "w"@,
        RelativeUnit::Month => "mo"@,
        RelativeUnit::Year => "y"@,
    }
}

/// A number in at least two digits.
pub open spec fn two_digits(value: nat) -> Seq<char> {
    if value < 10 {
        "0"@ + decimal(value)
    } else {
        decimal(value)
    }
}

/// The label of a relative age.
pub open spec fn relative_text(unit: RelativeUnit, value: u64) -> Seq<char> {
    if unit == RelativeUnit::Now {
        "now"@
    } else {
        decimal(value as nat) + unit_text(unit) + " ago"@
    }
}

/// The label of a duration.
pub open spec fn duration_text(ms: u64) -> Seq<char> {
    if ms < SECOND_MS {
        decimal(ms as nat) + "ms"@
    } else if ms < MINUTE_MS {
        decimal((ms / 1000) as nat) + "."@ + decimal((ms / 100 % 10) as nat) + "s"@
    } else if ms < HOUR_MS {
        decimal((ms / 60000) as nat) + "m"@ + two_digits((ms / 1000 % 60) as nat) + "s"@
    } else {
        decimal((ms / 3600000) as nat) + "h"@ + two_digits((ms / 60000 % 60) as nat) + "m"@
    }
}

/// The label that was written for a key.
pub open spec fn key_text(key: FormatKey) -> Seq<char> {
    match key {
        FormatKey::Duration(ms) => duration_text(ms),
        FormatKey::Relative(unit, value) => relative_text(unit, value),
        FormatKey::Elapsed(seconds) => decimal(seconds as nat) + "s"@,
    }
}

/// The key of an age.
pub open spec fn age_key(age: u64) -> FormatKey {
    FormatKey::Relative(unit_of(age), units_in(age))
}

/// How long the label of an age stays: to the next whole unit, or to where the
/// unit gives way if that comes first. `4w` becomes `1mo` at 30 days, not at 5
/// weeks.
pub open spec fn age_stays(age: u64) -> u64 {
    let whole = (period(unit_of(age)) - age % period(unit_of(age))) as u64;
    match unit_end(unit_of(age)) {
        Some(end) => if end - age < whole {
            (end - age) as u64
        } else {
            whole
        },
        None => whole,
    }
}

/// How far `later` lies behind `earlier`.
pub open spec fn time_since(later: u64, earlier: u64) -> u64 {
    if later >= earlier {
        (later - earlier) as u64
    } else {
        0
    }
}

/// A compact duration, live relative age, or live elapsed-seconds badge.
///
/// - kind `duration`: a compact duration (`1.2s`, `3m04s`).
/// - kind `relative`: an age that keeps counting from the first paint.
/// - kind `elapsed`: whole seconds since the instant `ms` of the clock, never
///   negative, repainting exactly on each second boundary.
pub struct Time {
    /// What is shown.
    pub mode: Mode,
    /// The time it was given.
    pub ms: u64,
    /// Its style.
    pub style: Style,
    /// The label.
    pub text: String,
    /// What the label was written for.
    pub key: Option<FormatKey>,
    /// The age it was given and the instant it started to count from it.
    pub anchor: Option<(u64, u64)>,
}

/// A time display.
#[verifier::ext_equal]
pub struct TimeView {
    /// What is shown.
    pub mode: Mode,
    /// The time it was given.
    pub ms: u64,
    /// Its style.
    pub style: Style,
    /// The age it was given and the instant it started to count from it.
    pub anchor: Option<(u64, u64)>,
}

impl View for Time {
    type V = TimeView;

    open spec fn view(&self) -> TimeView {
        TimeView { mode: self.mode, ms: self.ms, style: self.style, anchor: self.anchor }
    }
}

impl TimeView {
    /// Where the age counts from once read at `now`. Another age starts anew.
    pub open spec fn counting_from(self, now: u64) -> (u64, u64) {
        match self.anchor {
            Some(anchor) => if anchor.0 == self.ms {
                anchor
            } else {
                (self.ms, now)
            },
            None => (self.ms, now),
        }
    }

    /// The age at `now`, held at the largest time.
    pub open spec fn age(self, now: u64) -> u64 {
        let from = self.counting_from(now);
        held_time(from.0 + time_since(now, from.1))
    }

    /// The display once read at `now`.
    pub open spec fn read(self, now: u64) -> Self {
        TimeView {
            anchor: if self.mode == Mode::Relative {
                Some(self.counting_from(now))
            } else {
                None
            },
            ..self
        }
    }

    /// What the label shows at `now`.
    pub open spec fn key(self, now: u64) -> FormatKey {
        match self.mode {
            Mode::Duration => FormatKey::Duration(self.ms),
            Mode::Relative => age_key(self.age(now)),
            Mode::Elapsed => FormatKey::Elapsed(time_since(now, self.ms) / SECOND_MS),
        }
    }

    /// How long the label shown at `now` stays; `None` for ever.
    pub open spec fn stays(self, now: u64) -> Option<u64> {
        match self.mode {
            Mode::Duration => None,
            Mode::Relative => {
                let age = self.age(now);
                if age + age_stays(age) <= u64::MAX {
                    Some(age_stays(age))
                } else {
                    None
                }
            },
            Mode::Elapsed => {
                let elapsed = time_since(now, self.ms);
                let boundary = (elapsed / SECOND_MS + 1) * SECOND_MS;
                let delta = boundary - elapsed + time_since(self.ms, now);
                if boundary <= u64::MAX && delta <= u64::MAX {
                    Some(delta as u64)
                } else {
                    None
                }
            },
        }
    }
}

/// The parts of a relative age: its unit, the whole units in it, and the length
/// of the unit.
pub fn relative_parts(age: u64) -> (parts: (RelativeUnit, u64, u64))
    ensures
        parts.0 == unit_of(age),
        parts.1 == units_in(age),
        parts.2 == period(unit_of(age)),
{
    if age < SECOND_MS {
        (RelativeUnit::Now, 0, SECOND_MS)
    } else if age < MINUTE_MS {
        (RelativeUnit::Second, age / SECOND_MS, SECOND_MS)
    } else if age < HOUR_MS {
        (RelativeUnit::Minute, age / MINUTE_MS, MINUTE_MS)
    } else if age < DAY_MS {
        (RelativeUnit::Hour, age / HOUR_MS, HOUR_MS)
    } else if age < WEEK_MS {
        (RelativeUnit::Day, age / DAY_MS, DAY_MS)
    } else if age < MONTH_MS {
        (RelativeUnit::Week, age / WEEK_MS, WEEK_MS)
    } else if age < YEAR_MS {
        (RelativeUnit::Month, age / MONTH_MS, MONTH_MS)
    } else {
        (RelativeUnit::Year, age / YEAR_MS, YEAR_MS)
    }
}

/// Formats an elapsed age in milliseconds as a compact relative label ("now",
/// "5s ago", "3mo ago").
pub fn relative_age(age_ms: u64) -> (label: String)
    ensures
        label@ == key_text(age_key(age_ms)),
{
    let (unit, value, _) = relative_parts(age_ms);
    write_relative(unit, value)
}

/// Abbreviation of a unit.
fn unit_name(unit: RelativeUnit) -> (name: &'static str)
    ensures
        name@ == unit_text(unit),
{
    match unit {
        RelativeUnit::Now => "",
        RelativeUnit::Second => "s",
        RelativeUnit::Minute => "m",
        RelativeUnit::Hour => "h",
        RelativeUnit::Day => "d",
        RelativeUnit::Week => "w",
        RelativeUnit::Month => "mo",
        RelativeUnit::Year => "y",
    }
}

/// The label of a relative age.
fn write_relative(unit: RelativeUnit, value: u64) -> (label: String)
    ensures
        label@ == relative_text(unit, value),
{
    if unit == RelativeUnit::Now {
        "now".to_owned()
    } else {
        let mut label: String = to_decimal(value);
        label.append(unit_name(unit));
        label.append(" ago");
        label
    }
}

/// Appends a number in at least two digits.
fn push_two_digits(label: &mut String, value: u64)
    ensures
        final(label)@ == old(label)@ + two_digits(value as nat),
{
    let number: String = to_decimal(value);
    let ghost before = label@;
    if value < 10 {
        label.append("0");
    }
    label.append(number.as_str());
    assert(label@ =~= before + two_digits(value as nat));
}

/// The label of a duration.
fn write_duration(ms: u64) -> (label: String)
    ensures
        label@ == duration_text(ms),
{
    if ms < SECOND_MS {
        let mut label: String = to_decimal(ms);
        label.append("ms");
        label
    } else if ms < MINUTE_MS {
        let tenths: u64 = ms / 100;
        let mut label: String = to_decimal(tenths / 10);
        label.append(".");
        let rest: String = to_decimal(tenths % 10);
        label.append(rest.as_str());
        label.append("s");
        label
    } else if ms < HOUR_MS {
        let seconds: u64 = ms / SECOND_MS;
        let mut label: String = to_decimal(seconds / 60);
        label.append("m");
        push_two_digits(&mut label, seconds % 60);
        label.append("s");
        label
    } else {
        let minutes: u64 = ms / MINUTE_MS;
        let mut label: String = to_decimal(minutes / 60);
        label.append("h");
        push_two_digits(&mut label, minutes % 60);
        label.append("m");
        label
    }
}

/// The label that is written for a key.
fn write_key(key: FormatKey) -> (label: String)
    ensures
        label@ == key_text(key),
{
    match key {
        FormatKey::Duration(ms) => write_duration(ms),
        FormatKey::Relative(unit, value) => write_relative(unit, value),
        FormatKey::Elapsed(seconds) => {
            let mut label: String = to_decimal(seconds);
            label.append("s");
            label
        },
    }
}

/// How long the label of an age stays.
fn label_stays(age: u64, unit: RelativeUnit, length: u64) -> (stays: u64)
    requires
        unit == unit_of(age),
        length == period(unit),
    ensures
        stays == age_stays(age),
{
    let whole: u64 = length - age % length;
    let end: Option<u64> = match unit {
        RelativeUnit::Now => Some(SECOND_MS),
        RelativeUnit::Second => Some(MINUTE_MS),
        RelativeUnit::Minute => Some(HOUR_MS),
        RelativeUnit::Hour => Some(DAY_MS),
        RelativeUnit::Day => Some(WEEK_MS),
        RelativeUnit::Week => Some(MONTH_MS),
        RelativeUnit::Month => Some(YEAR_MS),
        RelativeUnit::Year => None,
    };
    match end {
        Some(at) => if at - age < whole {
            at - age
        } else {
            whole
        },
        None => whole,
    }
}

impl Time {
    /// The label is that of its key.
    pub open spec fn wf(self) -> bool {
        self.key matches Some(key) ==> self.text@ == key_text(key)
    }

    /// Creates an empty time display; absent `ms` is treated as zero.
    pub fn new() -> (time: Self)
        ensures
            time.wf(),
            time@ == (TimeView { mode: Mode::Duration, ms: 0, style: plain(), anchor: None }),
    {
        Time {
            mode: Mode::Duration,
            ms: 0,
            style: Style::new(),
            text: String::new(),
            key: None,
            anchor: None,
        }
    }

    /// Sets the kind of the display and the time it shows.
    pub fn with(self, kind: &str, ms: u64) -> (time: Self)
        requires
            self.wf(),
        ensures
            time.wf(),
            time@ == (TimeView { mode: mode_of(kind@), ms, ..self@ }),
    {
        let mut time: Time = self;
        time.mode = if same_text(kind, "relative") {
            Mode::Relative
        } else if same_text(kind, "elapsed") {
            Mode::Elapsed
        } else {
            Mode::Duration
        };
        time.ms = ms;
        time
    }

    /// Sets the style of the display.
    pub fn with_style(self, style: Style) -> (time: Self)
        requires
            self.wf(),
        ensures
            time.wf(),
            time@ == (TimeView { style, ..self@ }),
    {
        let mut time: Time = self;
        time.style = style;
        time
    }

    /// The age at `now`; anchors the count where it has not started.
    fn age_at(&mut self, now: u64) -> (age: u64)
        requires
            old(self).wf(),
        ensures
            final(self).wf(),
            final(self)@ == (TimeView {
                anchor: Some(old(self)@.counting_from(now)),
                ..old(self)@
            }),
            age == old(self)@.age(now),
    {
        let source: u64 = self.ms;
        let anchor: (u64, u64) = match self.anchor {
            Some(kept) => if kept.0 == source {
                kept
            } else {
                (source, now)
            },
            None => (source, now),
        };
        self.anchor = Some(anchor);
        anchor.0.saturating_add(now.saturating_sub(anchor.1))
    }

    /// Brings the label up to date; how long it stays.
    fn sync(&mut self, now: u64) -> (stays: Option<u64>)
        requires
            old(self).wf(),
        ensures
            final(self).wf(),
            final(self)@ == old(self)@.read(now),
            final(self).text@ == key_text(old(self)@.key(now)),
            final(self).key == Some(old(self)@.key(now)),
            stays == old(self)@.stays(now),
    {
        let (key, next): (FormatKey, Option<u64>) = match self.mode {
            Mode::Duration => {
                self.anchor = None;
                (FormatKey::Duration(self.ms), None)
            },
            Mode::Relative => {
                let age: u64 = self.age_at(now);
                let (unit, value, length) = relative_parts(age);
                let delta: u64 = label_stays(age, unit, length);
                let next: Option<u64> = match age.checked_add(delta) {
                    Some(_) => Some(delta),
                    None => None,
                };
                (FormatKey::Relative(unit, value), next)
            },
            Mode::Elapsed => {
                self.anchor = None;
                let elapsed: u64 = now.saturating_sub(self.ms);
                // A clock still behind the start instant reads zero until one
                // full second after it.
                let lead: u64 = self.ms.saturating_sub(now);
                let seconds: u64 = elapsed / SECOND_MS;
                let next: Option<u64> = match (seconds + 1).checked_mul(SECOND_MS) {
                    Some(boundary) => (boundary - elapsed).checked_add(lead),
                    None => None,
                };
                (FormatKey::Elapsed(seconds), next)
            },
        };
        let current: bool = match self.key {
            Some(written) => written == key,
            None => false,
        };
        if !current {
            self.text = write_key(key);
            self.key = Some(key);
        }
        next
    }

    /// Width of the label at `now`: it neither shrinks nor grows.
    pub fn measure(&mut self, now: u64) -> (widths: (u16, u16))
        requires
            old(self).wf(),
        ensures
            final(self).wf(),
            final(self)@ == old(self)@.read(now),
            widths.0 == text_width(ascii_clusters(key_text(old(self)@.key(now)))),
            widths.1 == widths.0,
    {
        self.sync(now);
        let label: Text = Text::cells_of(self.text.as_str());
        let width: u16 = label.width();
        (width, width)
    }

    /// Paints the label of `now` into `rect`; when it has to be painted again.
    pub fn paint(&mut self, frame: &mut Frame, rect: Rect, clip: u16, now: u64) -> (wake: Option<u64>)
        requires
            old(self).wf(),
            old(frame).wf(),
        ensures
            final(self).wf(),
            final(frame).wf(),
            final(frame).source() == old(frame).source(),
            final(self)@ == old(self)@.read(now),
            ({
                let shown = rect.y < clip && rect.width > 0 && rect.height > 0;
                &&& final(frame)@ == (if shown {
                    old(frame)@.put(
                        rect.x,
                        rect.y,
                        ascii_clusters(key_text(old(self)@.key(now))),
                        old(self)@.style,
                    )
                } else {
                    old(frame)@
                })
                &&& wake == (match old(self)@.stays(now) {
                    Some(delta) if shown => Some(held_time(now + delta)),
                    _ => None,
                })
            }),
    {
        let next: Option<u64> = self.sync(now);
        if rect.y >= clip || rect.width == 0 || rect.height == 0 {
            return None;
        }
        let label: Text = Text::cells_of(self.text.as_str());
        frame.put(rect.x, rect.y, &label, self.style);
        match next {
            Some(delta) => Some(now.saturating_add(delta)),
            None => None,
        }
    }
}

impl Default for Time {
    fn default() -> (time: Self)
        ensures
            time.wf(),
            time@ == (TimeView { mode: Mode::Duration, ms: 0, style: plain(), anchor: None }),
    {
        Time::new()
    }
}

/// The label of an age reads the same until it is due, and changes then.
pub proof fn labels_change_when_due(age: u64, later: u64)
    requires
        age <= later,
    ensures
        age_stays(age) > 0,
        later < age + age_stays(age) ==> age_key(later) == age_key(age),
        later == age + age_stays(age) ==> age_key(later) != age_key(age),
{
    let unit = unit_of(age);
    let length = period(unit);
    let units = age / length;
    vstd::arithmetic::div_mod::lemma_fundamental_div_mod(age as int, length as int);
    vstd::arithmetic::div_mod::lemma_fundamental_div_mod(later as int, length as int);
    assert(length * units <= age < length * units + length);
    if later < age + age_stays(age) {
        assert(later < length * units + length);
        assert(later / length == units) by (nonlinear_arith)
            requires
                length * units <= later < length * units + length,
                length > 0,
        ;
    } else if later == age + age_stays(age) && unit_of(later) == unit {
        assert(later == length * units + length);
        assert(later / length == units + 1) by (nonlinear_arith)
            requires
                later == length * units + length,
                length > 0,
        ;
    }
}

/// Once read, an age goes on counting with the clock.
pub proof fn ages_keep_counting(time: TimeView, now: u64, later: u64)
    requires
        time.mode == Mode::Relative,
        time.anchor is None,
        now <= later,
    ensures
        time.read(now).age(later) == held_time(time.ms + (later - now)),
        time.read(now).read(later) == time.read(now),
{
}

/// Elapsed seconds read the same until they are due, and count one more then.
pub proof fn seconds_change_when_due(time: TimeView, now: u64, later: u64)
    requires
        time.mode == Mode::Elapsed,
        now <= later,
        time.stays(now) is Some,
    ensures
        later < now + time.stays(now)->0 ==> time.key(later) == time.key(now),
        later == now + time.stays(now)->0 ==> time.key(later) == FormatKey::Elapsed(
            (time_since(now, time.ms) / SECOND_MS + 1) as u64,
        ),
{
}

/// What follows the number of a relative label tells its unit.
proof fn units_read_differently(a: RelativeUnit, b: RelativeUnit)
    requires
        a != RelativeUnit::Now,
        b != RelativeUnit::Now,
    ensures
        (unit_text(a) + " ago"@).len() > 0,
        !crate::numbers::decimal_digit((unit_text(a) + " ago"@)[0]),
        unit_text(a) + " ago"@ == unit_text(b) + " ago"@ ==> a == b,
{
    reveal_strlit("s");
    reveal_strlit("m");
    reveal_strlit("h");
    reveal_strlit("d");
    reveal_strlit("w");
    reveal_strlit("mo");
    reveal_strlit("y");
    reveal_strlit(" ago");
    let behind_a = unit_text(a) + " ago"@;
    let behind_b = unit_text(b) + " ago"@;
    assert(behind_a[0] == unit_text(a)[0]);
    assert(behind_b[0] == unit_text(b)[0]);
    if behind_a == behind_b {
        assert(behind_a.len() == behind_b.len());
        assert(behind_a[0] == behind_b[0]);
    }
}

/// Different ages read differently where their keys differ.
pub proof fn ages_read_differently(age: u64, other: u64)
    requires
        age_key(age) != age_key(other),
    ensures
        key_text(age_key(age)) != key_text(age_key(other)),
{
    let a = unit_of(age);
    let b = unit_of(other);
    let behind_a = unit_text(a) + " ago"@;
    let behind_b = unit_text(b) + " ago"@;
    reveal_strlit("now");
    if a != RelativeUnit::Now {
        units_read_differently(a, a);
        assert(key_text(age_key(age)) =~= decimal(units_in(age) as nat) + behind_a);
    }
    if b != RelativeUnit::Now {
        units_read_differently(b, b);
        assert(key_text(age_key(other)) =~= decimal(units_in(other) as nat) + behind_b);
    }
    if key_text(age_key(age)) == key_text(age_key(other)) {
        if a == RelativeUnit::Now && b == RelativeUnit::Now {
            assert(age / SECOND_MS == 0 && other / SECOND_MS == 0);
        } else if a == RelativeUnit::Now {
            crate::numbers::decimals_are_digits(units_in(other) as nat);
            assert(key_text(age_key(other))[0] == decimal(units_in(other) as nat)[0]);
        } else if b == RelativeUnit::Now {
            crate::numbers::decimals_are_digits(units_in(age) as nat);
            assert(key_text(age_key(age))[0] == decimal(units_in(age) as nat)[0]);
        } else {
            units_read_differently(a, b);
            decimals_stand_apart(units_in(age) as nat, behind_a, units_in(other) as nat, behind_b);
        }
    }
}

/// The text that a live display shows changes exactly when it is due: it stays
/// as it is for as long as the display says, and reads differently then.
///
/// The clock must not stand before the instant an age counts from.
pub proof fn shown_text_changes_when_due(time: TimeView, now: u64, later: u64)
    requires
        time.mode == Mode::Relative || time.mode == Mode::Elapsed,
        time.mode == Mode::Relative ==> time.counting_from(now).1 <= now,
        time.stays(now) is Some,
        now <= later,
    ensures
        time.stays(now)->0 > 0,
        later < now + time.stays(now)->0 ==> key_text(time.read(now).key(later)) == key_text(
            time.key(now),
        ),
        later == now + time.stays(now)->0 ==> key_text(time.read(now).key(later)) != key_text(
            time.key(now),
        ),
{
    let read = time.read(now);
    if time.mode == Mode::Relative {
        let age = time.age(now);
        assert(read.counting_from(later) == time.counting_from(now));
        if later <= now + time.stays(now)->0 {
            assert(read.age(later) == age + (later - now));
            labels_change_when_due(age, read.age(later));
            if later == now + time.stays(now)->0 {
                ages_read_differently(age, read.age(later));
            }
        } else {
            labels_change_when_due(age, age);
        }
    } else {
        seconds_change_when_due(time, now, later);
        let seconds = time_since(now, time.ms) / SECOND_MS;
        let next = time_since(later, time.ms) / SECOND_MS;
        if later == now + time.stays(now)->0 {
            reveal_strlit("s");
            if key_text(read.key(later)) == key_text(time.key(now)) {
                decimals_stand_apart(next as nat, "s"@, seconds as nat, "s"@);
            }
        }
    }
}

} // verus!
