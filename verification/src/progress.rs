use vstd::prelude::*;
use vstd::string::StringExecFns;
use std::time::{Duration, Instant};

verus! {

/// `Instant` of std: a reading of the clock. Nothing is known of what is
/// inside one; it is kept and handed back.
#[verifier::external_type_specification]
#[verifier::external_body]
pub struct ExInstant(Instant);

/// Reads the clock: `Instant::now` of std. Which instant comes back is not
/// stated.
#[verifier::external_body]
fn now() -> Instant {
    Instant::now()
}

/// The time that has passed since `start`: `Instant::elapsed` of std. How
/// long it is is not stated.
#[verifier::external_body]
fn elapsed(start: &Instant) -> Duration {
    start.elapsed()
}

/// A duration in whole microseconds: `Duration::as_micros` of std. The
/// duration is opaque here, so nothing is stated of the number.
#[verifier::external_body]
fn as_micros(duration: &Duration) -> u128 {
    duration.as_micros()
}

/// The character that stands for a digit below ten.
pub open spec fn digit(d: nat) -> Seq<char> {
    if d == 0 {
        "0"@
    } else if d == 1 {
        "1"@
    } else if d == 2 {
        "2"@
    } else if d == 3 {
        "3"@
    } else if d == 4 {
        "4"@
    } else if d == 5 {
        "5"@
    } else if d == 6 {
        "6"@
    } else if d == 7 {
        "7"@
    } else if d == 8 {
        "8"@
    } else {
        "9"@
    }
}

/// A number in decimal, without leading zeros.
pub open spec fn decimal(n: nat) -> Seq<char>
    decreases n,
{
    if n < 10 {
        digit(n)
    } else {
        decimal(n / 10) + digit(n % 10)
    }
}

/// The character that stands for a digit below ten.
fn digit_str(d: u8) -> (r: &'static str)
    requires
        d < 10,
    ensures
        r@ == digit(d as nat),
{
    if d == 0 {
        "0"
    } else if d == 1 {
        "1"
    } else if d == 2 {
        "2"
    } else if d == 3 {
        "3"
    } else if d == 4 {
        "4"
    } else if d == 5 {
        "5"
    } else if d == 6 {
        "6"
    } else if d == 7 {
        "7"
    } else if d == 8 {
        "8"
    } else {
        "9"
    }
}

/// Appends `n` in decimal to `out`.
pub fn push_decimal(out: &mut String, n: u128)
    ensures
        final(out)@ == old(out)@ + decimal(n as nat),
    decreases n,
{
    if n >= 10 {
        push_decimal(out, n / 10);
    }
    out.append(digit_str((n % 10) as u8));
}

/// `count` copies of `piece`, one after the other.
pub open spec fn repeated(piece: Seq<char>, count: nat) -> Seq<char>
    decreases count,
{
    if count == 0 {
        Seq::empty()
    } else {
        repeated(piece, (count - 1) as nat) + piece
    }
}

/// Appends `count` copies of `piece` to `out`.
pub fn push_repeated(out: &mut String, piece: &str, count: usize)
    ensures
        final(out)@ == old(out)@ + repeated(piece@, count as nat),
{
    let mut i: usize = 0;
    while i < count
        invariant
            i <= count,
            out@ == old(out)@ + repeated(piece@, i as nat),
        decreases count - i,
    {
        out.append(piece);
        i += 1;
    }
}

/// A number followed by its unit, and by a comma if more is to follow.
pub open spec fn part(value: nat, unit: Seq<char>, more: bool) -> Seq<char> {
    if value == 0 {
        Seq::empty()
    } else if more {
        decimal(value) + unit + ","@
    } else {
        decimal(value) + unit
    }
}

/// A duration of `micros` microseconds in words.
///
/// Under one second it is the number of microseconds followed by `ms`. From
/// one second on it is made of hours, minutes and seconds, as in
/// `1h,2min,3s`: a part that is zero is left out, and the fraction of a
/// second is dropped.
pub open spec fn spec_format_duration(micros: nat) -> Seq<char> {
    let total = micros / 1_000_000;
    if total < 1 {
        decimal(micros) + "ms"@
    } else {
        let seconds = total % 60;
        let hours = total / 3600;
        let minutes = total % 3600 / 60;
        part(hours, "h"@, minutes > 0 || seconds > 0) + part(minutes, "min"@, seconds > 0) + part(
            seconds,
            "s"@,
            false,
        )
    }
}

/// How many of the `length` cells of a bar are filled at `percentage` percent.
pub open spec fn completed_cells(length: nat, percentage: nat) -> nat {
    percentage * length / 100
}

/// The line that shows a bar of `length` cells at `percentage` percent,
/// `micros` microseconds after the start.
pub open spec fn spec_progress_line(length: nat, percentage: nat, micros: nat) -> Seq<char> {
    let completed = completed_cells(length, percentage);
    "\rElapsed: "@ + spec_format_duration(micros) + " ("@ + decimal(percentage) + "%)["@
        + repeated("="@, completed) + repeated(" "@, (length - completed) as nat) + "]\r"@
}

/// Whether a bar of `length` cells can show `percentage` percent: the
/// percentage is at most 100 and the product of the two fits the machine word.
pub open spec fn showable(length: usize, percentage: usize) -> bool {
    percentage <= 100 && percentage * length <= usize::MAX
}

/// A duration of `micros` microseconds in words.
pub fn format_duration(micros: u128) -> (r: String)
    ensures
        r@ == spec_format_duration(micros as nat),
{
    let total_seconds = micros / 1_000_000;
    let mut result = String::new();
    if total_seconds < 1 {
        push_decimal(&mut result, micros);
        result.append("ms");
    } else {
        let seconds = total_seconds % 60;
        let hours = total_seconds / 3600;
        let minutes = total_seconds % 3600 / 60;
        if hours > 0 {
            push_decimal(&mut result, hours);
            result.append("h");
            if minutes > 0 || seconds > 0 {
                result.append(",");
            }
        }
        if minutes > 0 {
            push_decimal(&mut result, minutes);
            result.append("min");
            if seconds > 0 {
                result.append(",");
            }
        }
        if seconds > 0 {
            push_decimal(&mut result, seconds);
            result.append("s");
        }
    }
    result
}

/// The line that shows a bar of `length` cells at `percentage` percent,
/// `micros` microseconds after the start.
pub fn progress_line(length: usize, percentage: usize, micros: u128) -> (r: String)
    requires
        showable(length, percentage),
    ensures
        r@ == spec_progress_line(length as nat, percentage as nat, micros as nat),
{
    assert(percentage * length / 100 <= length) by (nonlinear_arith)
        requires
            percentage <= 100,
            length >= 0,
    ;
    let completed_length = percentage * length / 100;
    let rest_length = length - completed_length;
    let mut line = String::new();
    line.append("\rElapsed: ");
    let elapsed = format_duration(micros);
    line.append(elapsed.as_str());
    line.append(" (");
    push_decimal(&mut line, percentage as u128);
    line.append("%)[");
    push_repeated(&mut line, "=", completed_length);
    push_repeated(&mut line, " ", rest_length);
    line.append("]\r");
    line
}

/// Something that knows how far a piece of work has come.
pub trait ProgressLike: Sized {
    /// What `length` answers.
    open spec fn spec_length(&self) -> usize {
        arbitrary()
    }

    /// What `percentage` answers.
    open spec fn spec_percentage(&self) -> usize {
        arbitrary()
    }

    /// The width of the bar in cells.
    fn length(&self) -> (r: usize)
        ensures
            r == self.spec_length(),
    ;

    /// How much of the work is done, in percent.
    fn percentage(&self) -> (r: usize)
        ensures
            r == self.spec_percentage(),
    ;

    /// What `start_time` answers.
    open spec fn spec_start_time(&self) -> Instant {
        arbitrary()
    }

    /// When the work began.
    fn start_time(&self) -> (r: Instant)
        ensures
            r == self.spec_start_time(),
    ;

    /// The line that shows the progress now. The time in it is read from the
    /// clock, so the line is stated up to that time.
    fn line(&self) -> (r: String)
        requires
            showable(self.spec_length(), self.spec_percentage()),
        ensures
            exists|micros: u128|
                r@ == spec_progress_line(
                    self.spec_length() as nat,
                    self.spec_percentage() as nat,
                    micros as nat,
                ),
    {
        let start = self.start_time();
        let spent = elapsed(&start);
        let micros = as_micros(&spent);
        progress_line(self.length(), self.percentage(), micros)
    }
}

/// A progress bar that is moved by hand.
pub struct Progress {
    length: usize,
    percentage: usize,
    start_time: Instant,
}

impl ProgressLike for Progress {
    closed spec fn spec_length(&self) -> usize {
        self.length
    }

    closed spec fn spec_percentage(&self) -> usize {
        self.percentage
    }

    fn length(&self) -> (r: usize) {
        self.length
    }

    fn percentage(&self) -> (r: usize) {
        self.percentage
    }

    fn start_time(&self) -> (r: Instant) {
        assert(self.spec_start_time() == self.start_time);
        self.start_time
    }

    closed spec fn spec_start_time(&self) -> Instant {
        self.start_time
    }
}

impl Progress {
    /// A bar of `length` cells at 0 percent, whose time starts now.
    pub fn new(length: usize) -> (r: Progress)
        ensures
            r.spec_length() == length,
            r.spec_percentage() == 0,
    {
        Self { length, percentage: 0, start_time: now() }
    }

    /// The line that shows the bar as it stands.
    pub fn start(&self) -> (r: String)
        requires
            showable(self.spec_length(), self.spec_percentage()),
        ensures
            exists|micros: u128|
                r@ == spec_progress_line(
                    self.spec_length() as nat,
                    self.spec_percentage() as nat,
                    micros as nat,
                ),
    {
        self.line()
    }

    /// Moves the bar to `percentage` percent and gives the line that shows it.
    pub fn update_progress(&mut self, percentage: usize) -> (r: String)
        requires
            showable(old(self).spec_length(), percentage),
        ensures
            final(self).spec_length() == old(self).spec_length(),
            final(self).spec_percentage() == percentage,
            final(self).spec_start_time() == old(self).spec_start_time(),
            exists|micros: u128|
                r@ == spec_progress_line(
                    old(self).spec_length() as nat,
                    percentage as nat,
                    micros as nat,
                ),
    {
        self.percentage = percentage;
        self.line()
    }

    /// The same bar at `percentage` percent, with the same start.
    pub fn with_progress(&self, percentage: usize) -> (r: Self)
        ensures
            r.spec_length() == self.spec_length(),
            r.spec_percentage() == percentage,
            r.spec_start_time() == self.spec_start_time(),
    {
        Self { length: self.length, percentage, start_time: self.start_time }
    }

    /// Moves the bar to 100 percent and gives the line that shows it.
    pub fn done(&mut self) -> (r: String)
        requires
            100 * old(self).spec_length() <= usize::MAX,
        ensures
            final(self).spec_length() == old(self).spec_length(),
            final(self).spec_percentage() == 100,
            final(self).spec_start_time() == old(self).spec_start_time(),
            exists|micros: u128|
                r@ == spec_progress_line(old(self).spec_length() as nat, 100, micros as nat),
    {
        self.update_progress(100)
    }
}

} // verus!
