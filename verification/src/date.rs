use vstd::prelude::*;

verus! {

/// A UTC calendar date, held as plain year, month and day numbers.
///
/// A frame carries its date as eight ASCII digits `YYYYMMDD`, so a date is
/// well formed only when the year fits in four decimal digits.
#[derive(Clone, Copy, Debug, PartialEq, Eq, Structural)]
pub struct UtcDate {
    pub year: u16,
    pub month: u8,
    pub day: u8,
}

impl UtcDate {
    /// The date fits the `YYYYMMDD` stamp: four-digit year, real month and
    /// day ranges.
    pub open spec fn wf(self) -> bool {
        self.year <= 9999 && 1 <= self.month <= 12 && 1 <= self.day <= 31
    }
}

/// The ASCII digit for a value in `0 ..= 9`.
pub open spec fn ascii_digit(n: int) -> u8
    recommends
        0 <= n <= 9,
{
    (0x30 + n) as u8
}

/// The eight ASCII bytes `YYYYMMDD` of a date, zero padded.
pub open spec fn spec_date_bytes(d: UtcDate) -> Seq<u8> {
    seq![
        ascii_digit(d.year as int / 1000),
        ascii_digit((d.year as int / 100) % 10),
        ascii_digit((d.year as int / 10) % 10),
        ascii_digit(d.year as int % 10),
        ascii_digit(d.month as int / 10),
        ascii_digit(d.month as int % 10),
        ascii_digit(d.day as int / 10),
        ascii_digit(d.day as int % 10),
    ]
}

/// Formats a date as its eight-byte `YYYYMMDD` stamp.
pub fn format_date(d: &UtcDate) -> (r: Vec<u8>)
    requires
        d.wf(),
    ensures
        r@ == spec_date_bytes(*d),
        r@.len() == 8,
{
    let mut r: Vec<u8> = Vec::new();
    r.push(0x30 + (d.year / 1000) as u8);
    r.push(0x30 + ((d.year / 100) % 10) as u8);
    r.push(0x30 + ((d.year / 10) % 10) as u8);
    r.push(0x30 + (d.year % 10) as u8);
    r.push(0x30 + (d.month / 10) as u8);
    r.push(0x30 + (d.month % 10) as u8);
    r.push(0x30 + (d.day / 10) as u8);
    r.push(0x30 + (d.day % 10) as u8);
    assert(r@ =~= spec_date_bytes(*d));
    r
}

/// Builds a well-formed date from raw calendar parts, refusing any part that
/// falls outside the `YYYYMMDD` ranges.
pub fn date_from_parts(year: i32, month: u32, day: u32) -> (r: Option<UtcDate>)
    ensures
        r is Some <==> (0 <= year <= 9999 && 1 <= month <= 12 && 1 <= day <= 31),
        r matches Some(d) ==> d.wf() && d.year == year && d.month == month && d.day == day,
{
    if 0 <= year && year <= 9999 && 1 <= month && month <= 12 && 1 <= day && day <= 31 {
        Some(UtcDate { year: year as u16, month: month as u8, day: day as u8 })
    } else {
        None
    }
}

/// Relies on chrono's `Utc::now`, `date_naive` and `Datelike`: the month
/// number ranges over `1 ..= 12` and the day of month over `1 ..= 31`.
#[verifier::external_body]
fn utc_today_parts() -> (r: (i32, u32, u32))
    ensures
        1 <= r.1 <= 12,
        1 <= r.2 <= 31,
{
    let today = chrono::Utc::now().date_naive();
    (
        chrono::Datelike::year(&today),
        chrono::Datelike::month(&today),
        chrono::Datelike::day(&today),
    )
}

/// The current UTC calendar date, read from the system clock. `None` only
/// when the clock reports a year outside `0 ..= 9999`.
pub fn today_utc() -> (r: Option<UtcDate>)
    ensures
        r matches Some(d) ==> d.wf(),
{
    let (year, month, day) = utc_today_parts();
    date_from_parts(year, month, day)
}

/// Two distinct well-formed dates never share a `YYYYMMDD` stamp: encoding
/// across a day boundary always changes the date field, and frames stamped
/// alike were stamped on the same calendar day.
pub proof fn lemma_date_bytes_injective(d1: UtcDate, d2: UtcDate)
    requires
        d1.wf(),
        d2.wf(),
        spec_date_bytes(d1) == spec_date_bytes(d2),
    ensures
        d1 == d2,
{
    let y1 = d1.year as int;
    let y2 = d2.year as int;
    assert(spec_date_bytes(d1)[0] == spec_date_bytes(d2)[0]);
    assert(spec_date_bytes(d1)[1] == spec_date_bytes(d2)[1]);
    assert(spec_date_bytes(d1)[2] == spec_date_bytes(d2)[2]);
    assert(spec_date_bytes(d1)[3] == spec_date_bytes(d2)[3]);
    assert(spec_date_bytes(d1)[4] == spec_date_bytes(d2)[4]);
    assert(spec_date_bytes(d1)[5] == spec_date_bytes(d2)[5]);
    assert(spec_date_bytes(d1)[6] == spec_date_bytes(d2)[6]);
    assert(spec_date_bytes(d1)[7] == spec_date_bytes(d2)[7]);
    assert(y1 / 1000 == y2 / 1000);
    assert((y1 / 100) % 10 == (y2 / 100) % 10);
    assert((y1 / 10) % 10 == (y2 / 10) % 10);
    assert(y1 % 10 == y2 % 10);
    lemma_digits_pin_value(y1, y2);
    assert(d1.month as int / 10 == d2.month as int / 10);
    assert(d1.month as int % 10 == d2.month as int % 10);
    vstd::arithmetic::div_mod::lemma_fundamental_div_mod(d1.month as int, 10);
    vstd::arithmetic::div_mod::lemma_fundamental_div_mod(d2.month as int, 10);
    vstd::arithmetic::div_mod::lemma_fundamental_div_mod(d1.day as int, 10);
    vstd::arithmetic::div_mod::lemma_fundamental_div_mod(d2.day as int, 10);
}

/// A value below 10000 is pinned by its four decimal digits.
proof fn lemma_digits_pin_value(y1: int, y2: int)
    requires
        0 <= y1 < 10000,
        0 <= y2 < 10000,
        y1 / 1000 == y2 / 1000,
        (y1 / 100) % 10 == (y2 / 100) % 10,
        (y1 / 10) % 10 == (y2 / 10) % 10,
        y1 % 10 == y2 % 10,
    ensures
        y1 == y2,
{
    vstd::arithmetic::div_mod::lemma_div_denominator(y1, 100, 10);
    vstd::arithmetic::div_mod::lemma_div_denominator(y2, 100, 10);
    vstd::arithmetic::div_mod::lemma_div_denominator(y1, 10, 10);
    vstd::arithmetic::div_mod::lemma_div_denominator(y2, 10, 10);
    assert(y1 / 100 == (y1 / 100) / 10 * 10 + (y1 / 100) % 10) by {
        vstd::arithmetic::div_mod::lemma_fundamental_div_mod(y1 / 100, 10);
    };
    assert(y2 / 100 == (y2 / 100) / 10 * 10 + (y2 / 100) % 10) by {
        vstd::arithmetic::div_mod::lemma_fundamental_div_mod(y2 / 100, 10);
    };
    assert(y1 / 10 == (y1 / 10) / 10 * 10 + (y1 / 10) % 10) by {
        vstd::arithmetic::div_mod::lemma_fundamental_div_mod(y1 / 10, 10);
    };
    assert(y2 / 10 == (y2 / 10) / 10 * 10 + (y2 / 10) % 10) by {
        vstd::arithmetic::div_mod::lemma_fundamental_div_mod(y2 / 10, 10);
    };
    vstd::arithmetic::div_mod::lemma_fundamental_div_mod(y1, 10);
    vstd::arithmetic::div_mod::lemma_fundamental_div_mod(y2, 10);
}

} // verus!
