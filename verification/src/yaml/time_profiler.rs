//! How long an operation on the history took.
use crate::timestamp::Timestamp;
use vstd::prelude::*;
use vstd::string::*;

verus! {

/// A measurement that has begun.
pub struct TimeProfiler {
    what: &'static str,
    start: Timestamp,
}

/// The character of a digit.
pub open spec fn digit(n: nat) -> char
    recommends
        n < 10,
{
    (n + '0' as nat) as char
}

/// `n` in decimal.
pub open spec fn decimal(n: nat) -> Seq<char>
    decreases n,
{
    if n < 10 {
        seq![digit(n)]
    } else {
        decimal(n / 10).push(digit(n % 10))
    }
}

/// The last `width` decimal digits of `n`.
pub open spec fn last_digits(n: nat, width: nat) -> Seq<char>
    decreases width,
{
    if width == 0 {
        Seq::empty()
    } else {
        last_digits(n / 10, (width - 1) as nat).push(digit(n % 10))
    }
}

/// What a measurement that took `nanos` nanoseconds says: milliseconds, with six digits behind the point.
/// The whole milliseconds count modulo the range of a `u64`.
pub open spec fn duration_text(nanos: nat) -> Seq<char> {
    decimal((nanos / 1_000_000) % 0x1_0000_0000_0000_0000) + seq!['.'] + last_digits(
        nanos % 1_000_000,
        6,
    ) + " ms"@
}

fn digit_char(n: u64) -> (c: char)
    requires
        n < 10,
    ensures
        c == digit(n as nat),
{
    match n {
        0 => '0',
        1 => '1',
        2 => '2',
        3 => '3',
        4 => '4',
        5 => '5',
        6 => '6',
        7 => '7',
        8 => '8',
        _ => '9',
    }
}

fn push_decimal(text: &mut String, n: u64)
    ensures
        final(text)@ == old(text)@ + decimal(n as nat),
    decreases n,
{
    if n >= 10 {
        push_decimal(text, n / 10);
    }
    text.push(digit_char(n % 10));
    assert(text@ =~= old(text)@ + decimal(n as nat));
}

fn push_last_digits(text: &mut String, n: u64, width: usize)
    ensures
        final(text)@ == old(text)@ + last_digits(n as nat, width as nat),
    decreases width,
{
    if width > 0 {
        push_last_digits(text, n / 10, width - 1);
        text.push(digit_char(n % 10));
    }
    assert(text@ =~= old(text)@ + last_digits(n as nat, width as nat));
}

impl TimeProfiler {
    /// What is measured.
    pub closed spec fn what(self) -> Seq<char> {
        self.what@
    }

    /// When the measurement began.
    pub closed spec fn start(self) -> Timestamp {
        self.start
    }

    pub fn new(what: &'static str, now: Timestamp) -> (profiler: Self)
        ensures
            profiler.what() == what@,
            profiler.start() == now,
    {
        TimeProfiler { what, start: now }
    }

    /// The measurement is over as of `now`: says how long it took, if the clock did not go backwards.
    pub fn report(&self, now: Timestamp) -> (text: String)
        requires
            now.nanos - self.start().nanos <= i128::MAX,
        ensures
            text@ == if now.nanos >= self.start().nanos {
                self.what() + ": "@ + duration_text((now.nanos - self.start().nanos) as nat)
            } else {
                self.what() + ": ??? ms"@
            },
    {
        let mut text = self.what.to_owned();
        if now.nanos >= self.start.nanos {
            let duration: u128 = (now.nanos - self.start.nanos) as u128;
            let ms: u128 = duration / 1_000_000;
            let ns: u128 = duration % 1_000_000;
            text.append(": ");
            push_decimal(&mut text, (ms % 0x1_0000_0000_0000_0000) as u64);
            text.push('.');
            push_last_digits(&mut text, ns as u64, 6);
            text.append(" ms");
            assert(text@ =~= self.what() + ": "@ + duration_text(duration as nat));
        } else {
            text.append(": ??? ms");
        }
        text
    }
}

/// The number that a text of decimal digits stands for.
pub open spec fn number(text: Seq<char>) -> int
    decreases text.len(),
{
    if text.len() == 0 {
        0
    } else {
        10 * number(text.drop_last()) + (text.last() as int - '0' as int)
    }
}

/// A number in decimal stands for itself, and has no leading zero unless that is all.
pub proof fn a_decimal_stands_for_its_number(n: nat)
    ensures
        number(decimal(n)) == n,
        decimal(n).len() > 0,
        decimal(n).len() > 1 ==> decimal(n)[0] != '0',
    decreases n,
{
    reveal_with_fuel(number, 2);
    if n < 10 {
        assert(decimal(n).drop_last() =~= Seq::empty());
    } else {
        a_decimal_stands_for_its_number(n / 10);
        assert(decimal(n).drop_last() =~= decimal(n / 10));
        reveal_with_fuel(decimal, 2);
    }
}

/// A duration is shown as its whole milliseconds, as far as they are in range, and its remaining nanoseconds in
/// six digits behind the point.
pub proof fn a_duration_shows_its_nanoseconds(nanos: nat)
    requires
        nanos < 1_000_000 * 0x1_0000_0000_0000_0000,
    ensures
        exists|whole: Seq<char>, rest: Seq<char>|
            duration_text(nanos) == #[trigger] (whole + seq!['.'] + rest) + " ms"@ && rest.len() == 6
                && number(whole) * 1_000_000 + number(rest) == nanos,
{
    let ms = nanos / 1_000_000;
    let ns = nanos % 1_000_000;
    let whole = decimal(ms % 0x1_0000_0000_0000_0000);
    let rest = last_digits(ns, 6);
    a_decimal_stands_for_its_number(ms % 0x1_0000_0000_0000_0000);
    assert(rest.len() == 6 && number(rest) == ns) by {
        lemma_six_digits(ns);
    }
    assert(duration_text(nanos) == (whole + seq!['.'] + rest) + " ms"@);
}

/// One more digit stands behind those of a tenth.
proof fn lemma_last_digits(n: nat, width: nat)
    requires
        width > 0,
    ensures
        last_digits(n, width).len() == last_digits(n / 10, (width - 1) as nat).len() + 1,
        number(last_digits(n, width)) == 10 * number(last_digits(n / 10, (width - 1) as nat)) + n
            % 10,
{
    let text = last_digits(n, width);
    assert(text.drop_last() =~= last_digits(n / 10, (width - 1) as nat));
}

/// Six digits are enough for a number below a million.
proof fn lemma_six_digits(n: nat)
    requires
        n < 1_000_000,
    ensures
        last_digits(n, 6).len() == 6,
        number(last_digits(n, 6)) == n,
{
    let a = n / 10;
    let b = a / 10;
    let c = b / 10;
    let d = c / 10;
    let e = d / 10;
    lemma_last_digits(n, 6);
    lemma_last_digits(a, 5);
    lemma_last_digits(b, 4);
    lemma_last_digits(c, 3);
    lemma_last_digits(d, 2);
    lemma_last_digits(e, 1);
    assert(number(last_digits(e / 10, 0)) == 0);
}

} // verus!
