//! Two-Line Element (TLE) sets: the column layout of the two data lines,
//! their checksums, and the fields they hold.
//!
//! The numeric fields that the format writes as decimal fractions are kept
//! as their text, checked to be literals that `str::parse::<f64>` accepts;
//! the integer fields are read to their values.

use crate::text::{
    all_digits, byte_range_chars, chars_of, digit_value, digits_value, without_sign, float_literal, is_digit, is_float_literal,
    lemma_boundary_in_suffix, lemma_str_chars, parse_i32, slice, spec_parse_i32, strip_signs, strip_signs_str, trim, trim_str,
};
use vstd::prelude::*;
use vstd::string::StringExecFns;
use vstd::string::StringSliceAdditionalSpecFns;
use vstd::utf8::*;

verus! {

/// Errors in reading a TLE set.
#[derive(Debug)]
pub enum TleError {
    /// The set does not have three lines of the right length.
    InvalidFormat(String),
    /// A line's checksum digit does not match its contents.
    ChecksumMismatch { expected: u8, actual: u8 },
    /// A field does not hold a number.
    ParseError(String),
    /// The epoch field does not hold a year and a day of the year.
    InvalidEpoch(String),
}

/// A [`TleError`] with its messages as character sequences.
pub enum TleErrorView {
    InvalidFormat(Seq<char>),
    ChecksumMismatch { expected: u8, actual: u8 },
    ParseError(Seq<char>),
    InvalidEpoch(Seq<char>),
}

impl View for TleError {
    type V = TleErrorView;

    open spec fn view(&self) -> TleErrorView {
        match self {
            TleError::InvalidFormat(m) => TleErrorView::InvalidFormat(m@),
            TleError::ChecksumMismatch { expected, actual } => TleErrorView::ChecksumMismatch {
                expected: *expected,
                actual: *actual,
            },
            TleError::ParseError(m) => TleErrorView::ParseError(m@),
            TleError::InvalidEpoch(m) => TleErrorView::InvalidEpoch(m@),
        }
    }
}

/// A field written as a mantissa of implied leading `0.` and a two-digit
/// power of ten, such as ` 31780-3` for `0.31780e-3`.
#[derive(Debug)]
pub enum ExponentialField {
    /// A blank field, or the single digit `0`.
    Zero,
    /// `(-1 if negative) * mantissa * 10^exponent`, with `mantissa` the text
    /// of a floating-point literal.
    Scaled { negative: bool, mantissa: String, exponent: i32 },
}

/// An [`ExponentialField`] with its text as a character sequence.
pub enum ExponentialFieldView {
    Zero,
    Scaled { negative: bool, mantissa: Seq<char>, exponent: i32 },
}

impl View for ExponentialField {
    type V = ExponentialFieldView;

    open spec fn view(&self) -> ExponentialFieldView {
        match self {
            ExponentialField::Zero => ExponentialFieldView::Zero,
            ExponentialField::Scaled { negative, mantissa, exponent } =>
                ExponentialFieldView::Scaled {
                    negative: *negative,
                    mantissa: mantissa@,
                    exponent: *exponent,
                },
        }
    }
}

/// The contents of a TLE set. Decimal fields hold the text of a
/// floating-point literal.
#[derive(Debug)]
pub struct TleRecord {
    /// Satellite name: the first line, trimmed.
    pub name: String,
    /// NORAD catalog number.
    pub norad_id: u32,
    /// Classification character (U, C or S).
    pub classification: char,
    /// International designator, trimmed.
    pub international_designator: String,
    /// Full year of the epoch.
    pub epoch_year: i32,
    /// Day of the year of the epoch, with its fraction.
    pub epoch_day: String,
    /// First derivative of the mean motion.
    pub mean_motion_dot: String,
    /// Second derivative of the mean motion.
    pub mean_motion_ddot: ExponentialField,
    /// B* drag term.
    pub bstar: ExponentialField,
    /// Ephemeris type.
    pub ephemeris_type: u32,
    /// Element set number.
    pub element_set_number: u32,
    /// Inclination in degrees.
    pub inclination: String,
    /// Right ascension of the ascending node in degrees.
    pub raan: String,
    /// Eccentricity, the field's digits after an implied `0.`.
    pub eccentricity: String,
    /// Argument of perigee in degrees.
    pub argument_of_perigee: String,
    /// Mean anomaly in degrees.
    pub mean_anomaly: String,
    /// Mean motion in revolutions per day.
    pub mean_motion: String,
    /// Revolution number at the epoch.
    pub revolution_number: u32,
}

/// The fields of the first data line.
pub struct Line1Fields {
    pub norad_id: u32,
    pub classification: char,
    pub international_designator: Seq<char>,
    pub epoch_year: i32,
    pub epoch_day: Seq<char>,
    pub mean_motion_dot: Seq<char>,
    pub mean_motion_ddot: ExponentialFieldView,
    pub bstar: ExponentialFieldView,
    pub ephemeris_type: u32,
    pub element_set_number: u32,
}

/// The fields of the second data line.
pub struct Line2Fields {
    pub inclination: Seq<char>,
    pub raan: Seq<char>,
    pub eccentricity: Seq<char>,
    pub argument_of_perigee: Seq<char>,
    pub mean_anomaly: Seq<char>,
    pub mean_motion: Seq<char>,
    pub revolution_number: u32,
}

struct Line1 {
    norad_id: u32,
    classification: char,
    international_designator: String,
    epoch_year: i32,
    epoch_day: String,
    mean_motion_dot: String,
    mean_motion_ddot: ExponentialField,
    bstar: ExponentialField,
    ephemeris_type: u32,
    element_set_number: u32,
}

impl View for Line1 {
    type V = Line1Fields;

    closed spec fn view(&self) -> Line1Fields {
        Line1Fields {
            norad_id: self.norad_id,
            classification: self.classification,
            international_designator: self.international_designator@,
            epoch_year: self.epoch_year,
            epoch_day: self.epoch_day@,
            mean_motion_dot: self.mean_motion_dot@,
            mean_motion_ddot: self.mean_motion_ddot@,
            bstar: self.bstar@,
            ephemeris_type: self.ephemeris_type,
            element_set_number: self.element_set_number,
        }
    }
}

struct Line2 {
    inclination: String,
    raan: String,
    eccentricity: String,
    argument_of_perigee: String,
    mean_anomaly: String,
    mean_motion: String,
    revolution_number: u32,
}

impl View for Line2 {
    type V = Line2Fields;

    closed spec fn view(&self) -> Line2Fields {
        Line2Fields {
            inclination: self.inclination@,
            raan: self.raan@,
            eccentricity: self.eccentricity@,
            argument_of_perigee: self.argument_of_perigee@,
            mean_anomaly: self.mean_anomaly@,
            mean_motion: self.mean_motion@,
            revolution_number: self.revolution_number,
        }
    }
}

/// A [`TleRecord`] with its text as character sequences.
pub struct TleRecordView {
    pub name: Seq<char>,
    pub line1: Line1Fields,
    pub line2: Line2Fields,
}

impl View for TleRecord {
    type V = TleRecordView;

    open spec fn view(&self) -> TleRecordView {
        TleRecordView {
            name: self.name@,
            line1: Line1Fields {
                norad_id: self.norad_id,
                classification: self.classification,
                international_designator: self.international_designator@,
                epoch_year: self.epoch_year,
                epoch_day: self.epoch_day@,
                mean_motion_dot: self.mean_motion_dot@,
                mean_motion_ddot: self.mean_motion_ddot@,
                bstar: self.bstar@,
                ephemeris_type: self.ephemeris_type,
                element_set_number: self.element_set_number,
            },
            line2: Line2Fields {
                inclination: self.inclination@,
                raan: self.raan@,
                eccentricity: self.eccentricity@,
                argument_of_perigee: self.argument_of_perigee@,
                mean_anomaly: self.mean_anomaly@,
                mean_motion: self.mean_motion@,
                revolution_number: self.revolution_number,
            },
        }
    }
}

/// Reader of TLE sets.
pub struct TleParser;

/// A `Result` with its error seen through [`TleErrorView`].
pub open spec fn tle_result<T>(r: Result<T, TleError>) -> Result<T, TleErrorView> {
    match r {
        Ok(v) => Ok(v),
        Err(e) => Err(e@),
    }
}

/// The message `Invalid <field><kind>: '<s>'`.
pub open spec fn field_msg(field: Seq<char>, kind: Seq<char>, s: Seq<char>) -> Seq<char> {
    "Invalid "@ + field + kind + ": '"@ + s + "'"@
}

/// What a character adds to a line's checksum: a digit its value, a minus
/// sign one, anything else nothing.
pub open spec fn checksum_value(c: char) -> int {
    if is_digit(c) {
        digit_value(c)
    } else if c == '-' {
        1
    } else {
        0
    }
}

/// The sum of the checksum values of `s`.
pub open spec fn checksum_total(s: Seq<char>) -> int
    decreases s.len(),
{
    if s.len() == 0 {
        0
    } else {
        checksum_total(s.drop_last()) + checksum_value(s.last())
    }
}

/// Both `i` and `j` are character boundaries of `b`.
pub open spec fn on_boundaries(b: Seq<u8>, i: int, j: int) -> bool {
    is_char_boundary(b, i) && is_char_boundary(b, j)
}

/// Checking a line against its last character, the checksum digit; `None`
/// where that check cannot be made (the last character is not a digit, the
/// first 68 bytes do not end on a character boundary, or the sum of their
/// checksum values does not fit in a `u8`).
pub open spec fn spec_validate_checksum(line: &str) -> Option<Result<(), TleErrorView>> {
    let c = line@;
    let b = line.spec_bytes();
    if c.len() == 0 || !is_digit(c.last()) || !is_char_boundary(b, 68) {
        None
    } else {
        let total = checksum_total(byte_range_chars(b, 0, 68));
        if total > 255 {
            None
        } else {
            let expected = digit_value(c.last()) as u8;
            let actual = (total % 10) as u8;
            if expected != actual {
                Some(Err(TleErrorView::ChecksumMismatch { expected, actual }))
            } else {
                Some(Ok(()))
            }
        }
    }
}

/// An integer field: its trimmed text read as an `i32`.
pub open spec fn spec_parse_int(s: Seq<char>, field: Seq<char>) -> Result<i32, TleErrorView> {
    match spec_parse_i32(trim(s)) {
        Some(v) => Ok(v),
        None => Err(TleErrorView::ParseError(field_msg(field, ""@, s))),
    }
}

/// A decimal field: its trimmed text, which must be a floating-point literal.
pub open spec fn spec_parse_float(s: Seq<char>, field: Seq<char>) -> Result<
    Seq<char>,
    TleErrorView,
> {
    if is_float_literal(trim(s)) {
        Ok(trim(s))
    } else {
        Err(TleErrorView::ParseError(field_msg(field, ""@, s)))
    }
}

/// The eccentricity field: `0.` followed by its trimmed text, which must
/// make a floating-point literal.
pub open spec fn spec_parse_eccentricity(s: Seq<char>) -> Result<Seq<char>, TleErrorView> {
    let v = "0."@ + trim(s);
    if is_float_literal(v) {
        Ok(v)
    } else {
        Err(TleErrorView::ParseError(field_msg("eccentricity"@, ""@, trim(s))))
    }
}

/// An exponential field; `None` where the mantissa and the two-byte
/// exponent cannot be told apart on a character boundary.
pub open spec fn spec_parse_exponential(s: Seq<char>, field: Seq<char>) -> Option<
    Result<ExponentialFieldView, TleErrorView>,
> {
    let t = trim(s);
    if t.len() == 0 || t == seq!['0'] {
        Some(Ok(ExponentialFieldView::Zero))
    } else {
        let negative = t[0] == '-';
        let u = strip_signs(t);
        let ub = encode_utf8(u);
        if ub.len() < 2 {
            Some(Err(TleErrorView::ParseError(field_msg(field, " format"@, u))))
        } else if !is_char_boundary(ub, ub.len() - 2) {
            None
        } else {
            let m = byte_range_chars(ub, 0, ub.len() - 2);
            let e = byte_range_chars(ub, ub.len() - 2, ub.len() as int);
            let mantissa = "0."@ + m;
            if !is_float_literal(mantissa) {
                Some(Err(TleErrorView::ParseError(field_msg(field, " mantissa"@, m))))
            } else {
                match spec_parse_i32(e) {
                    None => Some(Err(TleErrorView::ParseError(field_msg(field, " exponent"@, e)))),
                    Some(x) => Some(
                        Ok(ExponentialFieldView::Scaled { negative, mantissa, exponent: x }),
                    ),
                }
            }
        }
    }
}

/// The full year of a two-digit TLE year: 57 to 99 are 1957 to 1999, the
/// others 2000 onwards.
pub open spec fn full_year(year: int) -> int {
    if year < 57 {
        2000 + year
    } else {
        1900 + year
    }
}

/// The epoch field, given as its bytes: a two-character year and the day of
/// the year; `None` where byte 2 is not a character boundary.
pub open spec fn spec_parse_epoch(sb: Seq<u8>) -> Option<Result<(i32, Seq<char>), TleErrorView>> {
    if !is_char_boundary(sb, 2) {
        None
    } else {
        let ys = byte_range_chars(sb, 0, 2);
        let ds = byte_range_chars(sb, 2, sb.len() as int);
        match spec_parse_i32(ys) {
            None => Some(Err(TleErrorView::InvalidEpoch(field_msg("year"@, ""@, ys)))),
            Some(y) => if !is_float_literal(ds) {
                Some(Err(TleErrorView::InvalidEpoch(field_msg("day of year"@, ""@, ds))))
            } else {
                Some(Ok((full_year(y as int) as i32, ds)))
            },
        }
    }
}


/// An integer field in bytes `i..j` of `b`; `None` unless both ends are
/// character boundaries.
pub open spec fn spec_int_at(b: Seq<u8>, i: int, j: int, field: Seq<char>) -> Option<
    Result<i32, TleErrorView>,
> {
    if on_boundaries(b, i, j) {
        Some(spec_parse_int(byte_range_chars(b, i, j), field))
    } else {
        None
    }
}

/// A decimal field in bytes `i..j` of `b`; `None` unless both ends are
/// character boundaries.
pub open spec fn spec_float_at(b: Seq<u8>, i: int, j: int, field: Seq<char>) -> Option<
    Result<Seq<char>, TleErrorView>,
> {
    if on_boundaries(b, i, j) {
        Some(spec_parse_float(byte_range_chars(b, i, j), field))
    } else {
        None
    }
}

/// An exponential field in bytes `i..j` of `b`; `None` unless both ends are
/// character boundaries and the field itself can be read without a panic.
pub open spec fn spec_exponential_at(b: Seq<u8>, i: int, j: int, field: Seq<char>) -> Option<
    Result<ExponentialFieldView, TleErrorView>,
> {
    if on_boundaries(b, i, j) {
        spec_parse_exponential(byte_range_chars(b, i, j), field)
    } else {
        None
    }
}

/// The fields of line 1 from column 34 on, after the epoch.
pub open spec fn spec_line1_tail(
    b: Seq<u8>,
    norad_id: u32,
    classification: char,
    designator: Seq<char>,
    epoch: (i32, Seq<char>),
) -> Option<Result<Line1Fields, TleErrorView>> {
    match spec_float_at(b, 33, 43, "mean motion dot"@) {
        None => None,
        Some(Err(e)) => Some(Err(e)),
        Some(Ok(mmdot)) => match spec_exponential_at(b, 44, 52, "mean motion ddot"@) {
            None => None,
            Some(Err(e)) => Some(Err(e)),
            Some(Ok(mmddot)) => match spec_exponential_at(b, 53, 61, "B* drag term"@) {
                None => None,
                Some(Err(e)) => Some(Err(e)),
                Some(Ok(bstar)) => match spec_int_at(b, 62, 63, "ephemeris type"@) {
                    None => None,
                    Some(Err(e)) => Some(Err(e)),
                    Some(Ok(eph)) => match spec_int_at(b, 64, 68, "element set number"@) {
                        None => None,
                        Some(Err(e)) => Some(Err(e)),
                        Some(Ok(set)) => Some(
                            Ok(
                                Line1Fields {
                                    norad_id,
                                    classification,
                                    international_designator: designator,
                                    epoch_year: epoch.0,
                                    epoch_day: epoch.1,
                                    mean_motion_dot: mmdot,
                                    mean_motion_ddot: mmddot,
                                    bstar,
                                    ephemeris_type: eph as u32,
                                    element_set_number: set as u32,
                                },
                            ),
                        ),
                    },
                },
            },
        },
    }
}

/// The fields of line 1, read in column order; the first error found is
/// the result, and `None` stands for a slice that does not fall on
/// character boundaries.
pub open spec fn spec_line1(line: &str) -> Option<Result<Line1Fields, TleErrorView>> {
    let b = line.spec_bytes();
    match spec_int_at(b, 2, 7, "NORAD ID"@) {
        None => None,
        Some(Err(e)) => Some(Err(e)),
        Some(Ok(norad)) => {
            let classification = if line@.len() > 7 {
                line@[7]
            } else {
                'U'
            };
            if !on_boundaries(b, 9, 17) || !on_boundaries(b, 18, 32) {
                None
            } else {
                let designator = trim(byte_range_chars(b, 9, 17));
                match spec_parse_epoch(b.subrange(18, 32)) {
                    None => None,
                    Some(Err(e)) => Some(Err(e)),
                    Some(Ok(epoch)) => spec_line1_tail(
                        b,
                        norad as u32,
                        classification,
                        designator,
                        epoch,
                    ),
                }
            }
        },
    }
}

/// The fields of line 2, read in column order.
pub open spec fn spec_line2(line: &str) -> Option<Result<Line2Fields, TleErrorView>> {
    let b = line.spec_bytes();
    match spec_float_at(b, 8, 16, "inclination"@) {
        None => None,
        Some(Err(e)) => Some(Err(e)),
        Some(Ok(inc)) => match spec_float_at(b, 17, 25, "RAAN"@) {
            None => None,
            Some(Err(e)) => Some(Err(e)),
            Some(Ok(raan)) => if !on_boundaries(b, 26, 33) {
                None
            } else {
                match spec_parse_eccentricity(byte_range_chars(b, 26, 33)) {
                    Err(e) => Some(Err(e)),
                    Ok(ecc) => match spec_float_at(b, 34, 42, "argument of perigee"@) {
                        None => None,
                        Some(Err(e)) => Some(Err(e)),
                        Some(Ok(argp)) => match spec_float_at(b, 43, 51, "mean anomaly"@) {
                            None => None,
                            Some(Err(e)) => Some(Err(e)),
                            Some(Ok(ma)) => match spec_float_at(b, 52, 63, "mean motion"@) {
                                None => None,
                                Some(Err(e)) => Some(Err(e)),
                                Some(Ok(mm)) => match spec_int_at(
                                    b,
                                    63,
                                    68,
                                    "revolution number"@,
                                ) {
                                    None => None,
                                    Some(Err(e)) => Some(Err(e)),
                                    Some(Ok(rev)) => Some(
                                        Ok(
                                            Line2Fields {
                                                inclination: inc,
                                                raan,
                                                eccentricity: ecc,
                                                argument_of_perigee: argp,
                                                mean_anomaly: ma,
                                                mean_motion: mm,
                                                revolution_number: rev as u32,
                                            },
                                        ),
                                    ),
                                },
                            },
                        },
                    },
                }
            },
        },
    }
}

/// Reading a three-line TLE set (name and two data lines): the first error
/// found, with the checks taken in a fixed order, or the record; `None` on
/// the sets that cannot be read at all (a field that would be cut off
/// character boundaries, a line whose last character is not a digit, a
/// checksum sum beyond `u8`).
pub open spec fn spec_parse(lines: Seq<&str>) -> Option<Result<TleRecordView, TleErrorView>> {
    if lines.len() != 3 {
        Some(Err(TleErrorView::InvalidFormat("TLE must contain exactly 3 lines"@)))
    } else if lines[1].spec_bytes().len() != 69 || lines[2].spec_bytes().len() != 69 {
        Some(Err(TleErrorView::InvalidFormat("TLE lines must be exactly 69 characters"@)))
    } else {
        match spec_validate_checksum(lines[1]) {
            None => None,
            Some(Err(e)) => Some(Err(e)),
            Some(Ok(_)) => match spec_validate_checksum(lines[2]) {
                None => None,
                Some(Err(e)) => Some(Err(e)),
                Some(Ok(_)) => match spec_line1(lines[1]) {
                    None => None,
                    Some(Err(e)) => Some(Err(e)),
                    Some(Ok(l1)) => match spec_line2(lines[2]) {
                        None => None,
                        Some(Err(e)) => Some(Err(e)),
                        Some(Ok(l2)) => Some(
                            Ok(TleRecordView { name: trim(lines[0]@), line1: l1, line2: l2 }),
                        ),
                    },
                },
            },
        }
    }
}

proof fn lemma_checksum_prefix(s: Seq<char>, k: int)
    requires
        0 <= k <= s.len(),
    ensures
        0 <= checksum_total(s.take(k)) <= checksum_total(s),
    decreases s.len(),
{
    if k < s.len() {
        assert(s.drop_last().take(k) =~= s.take(k));
        lemma_checksum_prefix(s.drop_last(), k);
    } else {
        assert(s.take(k) =~= s);
        if s.len() > 0 {
            lemma_checksum_prefix(s.drop_last(), s.len() - 1);
            assert(s.drop_last().take(s.len() - 1) =~= s.drop_last());
        }
    }
}

/// The message `Invalid <field><kind>: '<s>'`.
fn field_message(field: &str, kind: &str, s: &str) -> (m: String)
    ensures
        m@ == field_msg(field@, kind@, s@),
{
    let mut m = String::from_str("Invalid ");
    m.append(field);
    m.append(kind);
    m.append(": '");
    m.append(s);
    m.append("'");
    m
}

/// The read of `s` as a floating-point literal's text, trimmed.
fn trimmed_float(s: &str) -> (r: (bool, &str))
    ensures
        r.1@ == trim(s@),
        r.0 == is_float_literal(trim(s@)),
{
    let t = trim_str(s);
    let ok = float_literal(&chars_of(t));
    (ok, t)
}

proof fn lemma_encode_len(c: Seq<char>)
    ensures
        encode_utf8(c).len() >= c.len(),
    decreases c.len(),
{
    if c.len() > 0 {
        lemma_encode_len(c.drop_first());
    }
}

proof fn lemma_two_digit_bound(s: Seq<char>)
    requires
        all_digits(s),
        s.len() <= 2,
    ensures
        0 <= digits_value(s) <= 99,
{
    reveal_with_fuel(digits_value, 3);
    if s.len() == 2 {
        assert(is_digit(s[0]) && is_digit(s[1]));
        assert(s.drop_last().drop_last().len() == 0);
    } else if s.len() == 1 {
        assert(is_digit(s[0]));
    }
}

/// An exec outcome seen through the views of its value and error, `None`
/// standing for an input on which the reading cannot proceed.
pub open spec fn outcome<T: View>(r: Option<Result<T, TleError>>) -> Option<
    Result<T::V, TleErrorView>,
> {
    match r {
        None => None,
        Some(Ok(v)) => Some(Ok(v@)),
        Some(Err(e)) => Some(Err(e@)),
    }
}

/// The sum of the checksum values of `v`, or `None` once it passes 255.
fn checksum_sum_within_u8(v: &Vec<char>) -> (r: Option<u8>)
    ensures
        match r {
            Some(t) => t == checksum_total(v@),
            None => checksum_total(v@) > 255,
        },
{
    let mut sum: u32 = 0;
    let mut i: usize = 0;
    while i < v.len()
        invariant
            i <= v@.len(),
            sum == checksum_total(v@.take(i as int)),
            sum <= 255,
        decreases v@.len() - i,
    {
        let c = v[i];
        let d: u32 = if '0' <= c && c <= '9' {
            c as u32 - '0' as u32
        } else if c == '-' {
            1
        } else {
            0
        };
        proof {
            let t = v@.take(i + 1);
            assert(t.drop_last() =~= v@.take(i as int));
            assert(t.last() == c);
        }
        sum = sum + d;
        i = i + 1;
        if sum > 255 {
            proof {
                lemma_checksum_prefix(v@, i as int);
            }
            return None;
        }
    }
    assert(v@.take(i as int) =~= v@);
    Some(sum as u8)
}

impl TleParser {
    /// The checksum of a line's contents: the sum of its digits, with one
    /// for each minus sign, modulo ten.
    pub fn calculate_checksum(line: &str) -> (r: u8)
        requires
            checksum_total(line@) <= 255,
        ensures
            r == checksum_total(line@) % 10,
    {
        let v = chars_of(line);
        let mut sum: u8 = 0;
        let mut i: usize = 0;
        while i < v.len()
            invariant
                i <= v@.len(),
                v@ == line@,
                checksum_total(line@) <= 255,
                sum == checksum_total(v@.take(i as int)),
            decreases v@.len() - i,
        {
            let c = v[i];
            let d: u8 = if '0' <= c && c <= '9' {
                (c as u32 - '0' as u32) as u8
            } else if c == '-' {
                1
            } else {
                0
            };
            proof {
                let t = v@.take(i + 1);
                assert(t.drop_last() =~= v@.take(i as int));
                assert(t.last() == c);
                lemma_checksum_prefix(v@, i + 1);
            }
            sum = sum + d;
            i = i + 1;
        }
        assert(v@.take(i as int) =~= v@);
        sum % 10
    }

    fn try_validate_checksum(line: &str) -> (r: Option<Result<(), TleError>>)
        ensures
            outcome(r) == spec_validate_checksum(line),
    {
        let v = chars_of(line);
        if v.len() == 0 {
            return None;
        }
        let last = v[v.len() - 1];
        if !('0' <= last && last <= '9') {
            return None;
        }
        if !line.is_char_boundary(68) {
            return None;
        }
        let expected = (last as u32 - '0' as u32) as u8;
        proof {
            lemma_str_chars(line);
            is_char_boundary_start_end_of_seq(line.spec_bytes());
        }
        let body = slice(line, 0, 68);
        match checksum_sum_within_u8(&chars_of(body)) {
            None => None,
            Some(total) => {
                let calculated = total % 10;
                if expected != calculated {
                    Some(Err(TleError::ChecksumMismatch { expected, actual: calculated }))
                } else {
                    Some(Ok(()))
                }
            },
        }
    }

    /// Checks a line against its last character, the checksum digit of its
    /// first 68 bytes.
    pub fn validate_checksum(line: &str, _line_number: u8) -> (r: Result<(), TleError>)
        requires
            spec_validate_checksum(line) is Some,
        ensures
            Some(tle_result(r)) == spec_validate_checksum(line),
    {
        Self::try_validate_checksum(line).unwrap()
    }

    /// Reads an integer field: its trimmed text as an `i32`.
    pub fn parse_int(s: &str, field: &str) -> (r: Result<i32, TleError>)
        ensures
            tle_result(r) == spec_parse_int(s@, field@),
    {
        let t = trim_str(s);
        match parse_i32(&chars_of(t)) {
            Some(v) => Ok(v),
            None => Err(TleError::ParseError(field_message(field, "", s))),
        }
    }

    /// Reads a decimal field: its trimmed text, checked to be a
    /// floating-point literal.
    pub fn parse_float(s: &str, field: &str) -> (r: Result<String, TleError>)
        ensures
            Some(spec_parse_float(s@, field@)) == outcome(Some(r)),
    {
        let (ok, t) = trimmed_float(s);
        if ok {
            Ok(t.to_owned())
        } else {
            Err(TleError::ParseError(field_message(field, "", s)))
        }
    }

    /// Reads the eccentricity field: `0.` followed by its trimmed digits.
    pub fn parse_eccentricity(s: &str) -> (r: Result<String, TleError>)
        ensures
            Some(spec_parse_eccentricity(s@)) == outcome(Some(r)),
    {
        let t = trim_str(s);
        let mut v = String::from_str("0.");
        v.append(t);
        if float_literal(&chars_of(v.as_str())) {
            Ok(v)
        } else {
            Err(TleError::ParseError(field_message("eccentricity", "", t)))
        }
    }

    fn try_parse_exponential(s: &str, field: &str) -> (r: Option<Result<ExponentialField, TleError>>)
        ensures
            outcome(r) == spec_parse_exponential(s@, field@),
    {
        let t = trim_str(s);
        let tv = chars_of(t);
        if tv.len() == 0 {
            return Some(Ok(ExponentialField::Zero));
        }
        if tv.len() == 1 && tv[0] == '0' {
            assert(t@ =~= seq!['0']);
            return Some(Ok(ExponentialField::Zero));
        }
        assert(t@ != seq!['0']);
        let negative = tv[0] == '-';
        let u = strip_signs_str(t);
        let n = u.as_bytes().len();
        if n < 2 {
            return Some(Err(TleError::ParseError(field_message(field, " format", u))));
        }
        if !u.is_char_boundary(n - 2) {
            return None;
        }
        proof {
            lemma_str_chars(u);
            is_char_boundary_start_end_of_seq(u.spec_bytes());
        }
        let m = slice(u, 0, n - 2);
        let e = slice(u, n - 2, n);
        let mut mantissa = String::from_str("0.");
        mantissa.append(m);
        if !float_literal(&chars_of(mantissa.as_str())) {
            return Some(Err(TleError::ParseError(field_message(field, " mantissa", m))));
        }
        match parse_i32(&chars_of(e)) {
            None => Some(Err(TleError::ParseError(field_message(field, " exponent", e)))),
            Some(x) => Some(Ok(ExponentialField::Scaled { negative, mantissa, exponent: x })),
        }
    }

    /// Reads an exponential field such as ` 31780-3`: an optional sign, the
    /// mantissa digits, and a two-byte power of ten.
    pub fn parse_exponential(s: &str, field: &str) -> (r: Result<ExponentialField, TleError>)
        requires
            spec_parse_exponential(s@, field@) is Some,
        ensures
            spec_parse_exponential(s@, field@) == outcome(Some(r)),
    {
        Self::try_parse_exponential(s, field).unwrap()
    }

    fn try_parse_epoch(s: &str) -> (r: Option<Result<(i32, String), TleError>>)
        ensures
            outcome(r) == spec_parse_epoch(s.spec_bytes()),
    {
        if !s.is_char_boundary(2) {
            return None;
        }
        proof {
            lemma_str_chars(s);
            is_char_boundary_start_end_of_seq(s.spec_bytes());
        }
        let n = s.as_bytes().len();
        let ys = slice(s, 0, 2);
        let ds = slice(s, 2, n);
        let year = match parse_i32(&chars_of(ys)) {
            Some(y) => y,
            None => {
                return Some(Err(TleError::InvalidEpoch(field_message("year", "", ys))));
            },
        };
        proof {
            lemma_encode_len(ys@);
            lemma_two_digit_bound(without_sign(ys@));
        }
        let full = if year < 57 {
            2000 + year
        } else {
            1900 + year
        };
        if !float_literal(&chars_of(ds)) {
            return Some(Err(TleError::InvalidEpoch(field_message("day of year", "", ds))));
        }
        Some(Ok((full, ds.to_owned())))
    }

    /// Reads the epoch field: a two-character year, giving the full year,
    /// and the day of the year with its fraction.
    pub fn parse_epoch(s: &str) -> (r: Result<(i32, String), TleError>)
        requires
            spec_parse_epoch(s.spec_bytes()) is Some,
        ensures
            spec_parse_epoch(s.spec_bytes()) == outcome(Some(r)),
    {
        Self::try_parse_epoch(s).unwrap()
    }

    fn int_at(line: &str, i: usize, j: usize, field: &str) -> (r: Option<Result<i32, TleError>>)
        requires
            i <= j <= line.spec_bytes().len(),
        ensures
            outcome(r) == spec_int_at(line.spec_bytes(), i as int, j as int, field@),
    {
        if !line.is_char_boundary(i) || !line.is_char_boundary(j) {
            return None;
        }
        Some(Self::parse_int(slice(line, i, j), field))
    }

    fn float_at(line: &str, i: usize, j: usize, field: &str) -> (r: Option<Result<String, TleError>>)
        requires
            i <= j <= line.spec_bytes().len(),
        ensures
            outcome(r) == spec_float_at(line.spec_bytes(), i as int, j as int, field@),
    {
        if !line.is_char_boundary(i) || !line.is_char_boundary(j) {
            return None;
        }
        Some(Self::parse_float(slice(line, i, j), field))
    }

    fn exponential_at(line: &str, i: usize, j: usize, field: &str) -> (r: Option<
        Result<ExponentialField, TleError>,
    >)
        requires
            i <= j <= line.spec_bytes().len(),
        ensures
            outcome(r) == spec_exponential_at(line.spec_bytes(), i as int, j as int, field@),
    {
        if !line.is_char_boundary(i) || !line.is_char_boundary(j) {
            return None;
        }
        Self::try_parse_exponential(slice(line, i, j), field)
    }

    fn parse_line1(line: &str) -> (r: Option<Result<Line1, TleError>>)
        requires
            line.spec_bytes().len() == 69,
        ensures
            outcome(r) == spec_line1(line),
    {
        let norad_id = match Self::int_at(line, 2, 7, "NORAD ID") {
            None => return None,
            Some(Err(e)) => return Some(Err(e)),
            Some(Ok(v)) => v as u32,
        };
        let v = chars_of(line);
        let classification = if v.len() > 7 {
            v[7]
        } else {
            'U'
        };
        if !line.is_char_boundary(9) || !line.is_char_boundary(17) || !line.is_char_boundary(18)
            || !line.is_char_boundary(32) {
            return None;
        }
        let international_designator = trim_str(slice(line, 9, 17)).to_owned();
        let (epoch_year, epoch_day) = match Self::try_parse_epoch(slice(line, 18, 32)) {
            None => return None,
            Some(Err(e)) => return Some(Err(e)),
            Some(Ok(v)) => v,
        };
        let mean_motion_dot = match Self::float_at(line, 33, 43, "mean motion dot") {
            None => return None,
            Some(Err(e)) => return Some(Err(e)),
            Some(Ok(v)) => v,
        };
        let mean_motion_ddot = match Self::exponential_at(line, 44, 52, "mean motion ddot") {
            None => return None,
            Some(Err(e)) => return Some(Err(e)),
            Some(Ok(v)) => v,
        };
        let bstar = match Self::exponential_at(line, 53, 61, "B* drag term") {
            None => return None,
            Some(Err(e)) => return Some(Err(e)),
            Some(Ok(v)) => v,
        };
        let ephemeris_type = match Self::int_at(line, 62, 63, "ephemeris type") {
            None => return None,
            Some(Err(e)) => return Some(Err(e)),
            Some(Ok(v)) => v as u32,
        };
        let element_set_number = match Self::int_at(line, 64, 68, "element set number") {
            None => return None,
            Some(Err(e)) => return Some(Err(e)),
            Some(Ok(v)) => v as u32,
        };
        Some(
            Ok(
                Line1 {
                    norad_id,
                    classification,
                    international_designator,
                    epoch_year,
                    epoch_day,
                    mean_motion_dot,
                    mean_motion_ddot,
                    bstar,
                    ephemeris_type,
                    element_set_number,
                },
            ),
        )
    }

    fn parse_line2(line: &str) -> (r: Option<Result<Line2, TleError>>)
        requires
            line.spec_bytes().len() == 69,
        ensures
            outcome(r) == spec_line2(line),
    {
        let inclination = match Self::float_at(line, 8, 16, "inclination") {
            None => return None,
            Some(Err(e)) => return Some(Err(e)),
            Some(Ok(v)) => v,
        };
        let raan = match Self::float_at(line, 17, 25, "RAAN") {
            None => return None,
            Some(Err(e)) => return Some(Err(e)),
            Some(Ok(v)) => v,
        };
        if !line.is_char_boundary(26) || !line.is_char_boundary(33) {
            return None;
        }
        let eccentricity = match Self::parse_eccentricity(slice(line, 26, 33)) {
            Err(e) => return Some(Err(e)),
            Ok(v) => v,
        };
        let argument_of_perigee = match Self::float_at(line, 34, 42, "argument of perigee") {
            None => return None,
            Some(Err(e)) => return Some(Err(e)),
            Some(Ok(v)) => v,
        };
        let mean_anomaly = match Self::float_at(line, 43, 51, "mean anomaly") {
            None => return None,
            Some(Err(e)) => return Some(Err(e)),
            Some(Ok(v)) => v,
        };
        let mean_motion = match Self::float_at(line, 52, 63, "mean motion") {
            None => return None,
            Some(Err(e)) => return Some(Err(e)),
            Some(Ok(v)) => v,
        };
        let revolution_number = match Self::int_at(line, 63, 68, "revolution number") {
            None => return None,
            Some(Err(e)) => return Some(Err(e)),
            Some(Ok(v)) => v as u32,
        };
        Some(
            Ok(
                Line2 {
                    inclination,
                    raan,
                    eccentricity,
                    argument_of_perigee,
                    mean_anomaly,
                    mean_motion,
                    revolution_number,
                },
            ),
        )
    }

    /// Reads a three-line TLE set, telling apart the inputs on which the
    /// reading cannot proceed (`None`): a field slice off character
    /// boundaries, a line whose last character is not a digit, a checksum
    /// sum beyond `u8`.
    pub fn try_parse(tle_lines: &[&str]) -> (r: Option<Result<TleRecord, TleError>>)
        ensures
            outcome(r) == spec_parse(tle_lines@),
    {
        if tle_lines.len() != 3 {
            return Some(
                Err(TleError::InvalidFormat(String::from_str("TLE must contain exactly 3 lines"))),
            );
        }
        let name = trim_str(tle_lines[0]).to_owned();
        let line1 = tle_lines[1];
        let line2 = tle_lines[2];
        if line1.as_bytes().len() != 69 || line2.as_bytes().len() != 69 {
            return Some(
                Err(
                    TleError::InvalidFormat(
                        String::from_str("TLE lines must be exactly 69 characters"),
                    ),
                ),
            );
        }
        match Self::try_validate_checksum(line1) {
            None => return None,
            Some(Err(e)) => return Some(Err(e)),
            Some(Ok(())) => {},
        }
        match Self::try_validate_checksum(line2) {
            None => return None,
            Some(Err(e)) => return Some(Err(e)),
            Some(Ok(())) => {},
        }
        let l1 = match Self::parse_line1(line1) {
            None => return None,
            Some(Err(e)) => return Some(Err(e)),
            Some(Ok(v)) => v,
        };
        let l2 = match Self::parse_line2(line2) {
            None => return None,
            Some(Err(e)) => return Some(Err(e)),
            Some(Ok(v)) => v,
        };
        Some(
            Ok(
                TleRecord {
                    name,
                    norad_id: l1.norad_id,
                    classification: l1.classification,
                    international_designator: l1.international_designator,
                    epoch_year: l1.epoch_year,
                    epoch_day: l1.epoch_day,
                    mean_motion_dot: l1.mean_motion_dot,
                    mean_motion_ddot: l1.mean_motion_ddot,
                    bstar: l1.bstar,
                    ephemeris_type: l1.ephemeris_type,
                    element_set_number: l1.element_set_number,
                    inclination: l2.inclination,
                    raan: l2.raan,
                    eccentricity: l2.eccentricity,
                    argument_of_perigee: l2.argument_of_perigee,
                    mean_anomaly: l2.mean_anomaly,
                    mean_motion: l2.mean_motion,
                    revolution_number: l2.revolution_number,
                },
            ),
        )
    }

    /// Reads a three-line TLE set (name and two data lines): line count and
    /// lengths, both checksums, then the fields in column order; the first
    /// error met is the result. The decimal fields come back as their
    /// checked text; the range checks on their values (inclination, mean
    /// motion), whose error messages print the floating-point value, are
    /// made where the text is converted to numbers.
    pub fn parse(tle_lines: &[&str]) -> (r: Result<TleRecord, TleError>)
        requires
            spec_parse(tle_lines@) is Some,
        ensures
            spec_parse(tle_lines@) == outcome(Some(r)),
    {
        Self::try_parse(tle_lines).unwrap()
    }
}

proof fn lemma_range_valid(b: Seq<u8>, i: int, j: int)
    requires
        valid_utf8(b),
        0 <= i <= j <= b.len(),
        is_char_boundary(b, i),
        is_char_boundary(b, j),
    ensures
        valid_utf8(b.subrange(i, j)),
{
    let rest = b.subrange(i, b.len() as int);
    valid_utf8_split(b, i);
    lemma_boundary_in_suffix(b, i, j);
    valid_utf8_split(rest, j - i);
    assert(rest.subrange(0, j - i) =~= b.subrange(i, j));
}

proof fn lemma_decode_len(bytes: Seq<u8>)
    requires
        valid_utf8(bytes),
    ensures
        decode_utf8(bytes).len() <= bytes.len(),
{
    decode_utf8_encode_utf8(bytes);
    lemma_encode_len(decode_utf8(bytes));
}

/// Every decimal text of an exponential field is a floating-point literal.
pub open spec fn exponential_well_formed(f: ExponentialFieldView) -> bool {
    match f {
        ExponentialFieldView::Zero => true,
        ExponentialFieldView::Scaled { mantissa, .. } => is_float_literal(mantissa),
    }
}

/// The record read from `lines`, where one is.
pub open spec fn parsed_record(lines: Seq<&str>) -> TleRecordView {
    spec_parse(lines).unwrap()->Ok_0
}

/// Law: a TLE set is read only when both data lines carry the checksum of
/// their contents, and every decimal field of the record it gives, the
/// epoch day included, is a literal that `str::parse::<f64>` accepts; the
/// epoch year lies between 1901 and 2056.
pub proof fn law_parsed_record_well_formed(lines: Seq<&str>)
    requires
        spec_parse(lines) matches Some(Ok(_)),
    ensures
        spec_validate_checksum(lines[1]) == Some(Ok::<(), TleErrorView>(())),
        spec_validate_checksum(lines[2]) == Some(Ok::<(), TleErrorView>(())),
        is_float_literal(parsed_record(lines).line1.epoch_day),
        1901 <= parsed_record(lines).line1.epoch_year <= 2056,
        is_float_literal(parsed_record(lines).line1.mean_motion_dot),
        exponential_well_formed(parsed_record(lines).line1.mean_motion_ddot),
        exponential_well_formed(parsed_record(lines).line1.bstar),
        is_float_literal(parsed_record(lines).line2.inclination),
        is_float_literal(parsed_record(lines).line2.raan),
        is_float_literal(parsed_record(lines).line2.eccentricity),
        is_float_literal(parsed_record(lines).line2.argument_of_perigee),
        is_float_literal(parsed_record(lines).line2.mean_anomaly),
        is_float_literal(parsed_record(lines).line2.mean_motion),
{
    let b1 = lines[1].spec_bytes();
    let sb = b1.subrange(18, 32);
    lemma_str_chars(lines[1]);
    lemma_range_valid(b1, 18, 32);
    is_char_boundary_start_end_of_seq(sb);
    lemma_range_valid(sb, 0, 2);
    lemma_decode_len(sb.subrange(0, 2));
    let ys = byte_range_chars(sb, 0, 2);
    if spec_parse_i32(ys) is Some {
        lemma_two_digit_bound(without_sign(ys));
    }
}

/// The text of the field in bytes `i..j` of a line, trimmed.
pub open spec fn field_text(b: Seq<u8>, i: int, j: int) -> Seq<char> {
    trim(byte_range_chars(b, i, j))
}

/// An integer field's value is what its trimmed text reads as.
pub open spec fn reads_as(t: Seq<char>, v: u32) -> bool {
    spec_parse_i32(t) matches Some(x) && v == x as u32
}

/// An exponential field read from the trimmed text `t`: zero when blank
/// or `0`, else signed by the text's first character, its mantissa the
/// digits before the last two behind an implied `0.`, its exponent the
/// last two characters.
pub open spec fn exponential_from(t: Seq<char>, f: ExponentialFieldView) -> bool {
    if t.len() == 0 || t == seq!['0'] {
        f is Zero
    } else {
        let ub = encode_utf8(strip_signs(t));
        &&& f matches ExponentialFieldView::Scaled { negative, mantissa, exponent }
        &&& negative == (t[0] == '-')
        &&& mantissa == "0."@ + byte_range_chars(ub, 0, ub.len() - 2)
        &&& spec_parse_i32(byte_range_chars(ub, ub.len() - 2, ub.len() as int)) == Some(exponent)
    }
}

proof fn lemma_line1_columns(line: &str)
    requires
        line.spec_bytes().len() == 69,
        spec_line1(line) matches Some(Ok(_)),
    ensures
        ({
            let b = line.spec_bytes();
            let f = spec_line1(line).unwrap()->Ok_0;
            &&& reads_as(field_text(b, 2, 7), f.norad_id)
            &&& line@.len() > 7 ==> f.classification == line@[7]
            &&& f.international_designator == field_text(b, 9, 17)
            &&& spec_parse_i32(byte_range_chars(b, 18, 20)) matches Some(y) && f.epoch_year == (
            if y < 57 {
                2000 + y
            } else {
                1900 + y
            })
            &&& f.epoch_day == byte_range_chars(b, 20, 32)
            &&& f.mean_motion_dot == field_text(b, 33, 43)
            &&& exponential_from(field_text(b, 44, 52), f.mean_motion_ddot)
            &&& exponential_from(field_text(b, 53, 61), f.bstar)
            &&& reads_as(field_text(b, 62, 63), f.ephemeris_type)
            &&& reads_as(field_text(b, 64, 68), f.element_set_number)
        }),
{
    let b = line.spec_bytes();
    assert(b.subrange(18, 32).subrange(0, 2) =~= b.subrange(18, 20));
    assert(b.subrange(18, 32).subrange(2, 14) =~= b.subrange(20, 32));
    assert(b.subrange(18, 32).len() == 14);
    let sb = b.subrange(18, 32);
    lemma_str_chars(line);
    lemma_range_valid(b, 18, 32);
    is_char_boundary_start_end_of_seq(sb);
    lemma_range_valid(sb, 0, 2);
    lemma_decode_len(sb.subrange(0, 2));
    let ys = byte_range_chars(sb, 0, 2);
    if spec_parse_i32(ys) is Some {
        lemma_two_digit_bound(without_sign(ys));
    }
}

proof fn lemma_line2_columns(line: &str)
    requires
        spec_line2(line) matches Some(Ok(_)),
    ensures
        ({
            let b = line.spec_bytes();
            let f = spec_line2(line).unwrap()->Ok_0;
            &&& f.inclination == field_text(b, 8, 16)
            &&& f.raan == field_text(b, 17, 25)
            &&& f.eccentricity == "0."@ + field_text(b, 26, 33)
            &&& f.argument_of_perigee == field_text(b, 34, 42)
            &&& f.mean_anomaly == field_text(b, 43, 51)
            &&& f.mean_motion == field_text(b, 52, 63)
            &&& reads_as(field_text(b, 63, 68), f.revolution_number)
        }),
{
}

/// Law: every field of a record read from a TLE set is the text of its
/// columns in the fixed TLE layout (1-based columns): on line 1 the
/// catalog number in 3-7, the classification in 8, the international
/// designator in 10-17, the epoch year in 19-20 and day in 21-32, the first
/// derivative of the mean motion in 34-43, its second derivative in 45-52,
/// B* in 54-61 (its sign the sign written there), the ephemeris type in 63
/// and the element set number in 65-68; on line 2 the inclination in 9-16,
/// the right ascension of the ascending node in 18-25, the eccentricity in
/// 27-33 (behind an implied `0.`), the argument of perigee in 35-42, the
/// mean anomaly in 44-51, the mean motion in 53-63 and the revolution
/// number in 64-68. Decimal fields are their trimmed text; the name is the
/// first line, trimmed.
pub proof fn law_parsed_fields_at_columns(lines: Seq<&str>)
    requires
        spec_parse(lines) matches Some(Ok(_)),
    ensures
        ({
            let r = parsed_record(lines);
            let b1 = lines[1].spec_bytes();
            let b2 = lines[2].spec_bytes();
            &&& r.name == trim(lines[0]@)
            &&& reads_as(field_text(b1, 2, 7), r.line1.norad_id)
            &&& lines[1]@.len() > 7 ==> r.line1.classification == lines[1]@[7]
            &&& r.line1.international_designator == field_text(b1, 9, 17)
            &&& spec_parse_i32(byte_range_chars(b1, 18, 20)) matches Some(y)
                && r.line1.epoch_year == (if y < 57 {
                2000 + y
            } else {
                1900 + y
            })
            &&& r.line1.epoch_day == byte_range_chars(b1, 20, 32)
            &&& r.line1.mean_motion_dot == field_text(b1, 33, 43)
            &&& exponential_from(field_text(b1, 44, 52), r.line1.mean_motion_ddot)
            &&& exponential_from(field_text(b1, 53, 61), r.line1.bstar)
            &&& reads_as(field_text(b1, 62, 63), r.line1.ephemeris_type)
            &&& reads_as(field_text(b1, 64, 68), r.line1.element_set_number)
            &&& r.line2.inclination == field_text(b2, 8, 16)
            &&& r.line2.raan == field_text(b2, 17, 25)
            &&& r.line2.eccentricity == "0."@ + field_text(b2, 26, 33)
            &&& r.line2.argument_of_perigee == field_text(b2, 34, 42)
            &&& r.line2.mean_anomaly == field_text(b2, 43, 51)
            &&& r.line2.mean_motion == field_text(b2, 52, 63)
            &&& reads_as(field_text(b2, 63, 68), r.line2.revolution_number)
        }),
{
    lemma_line1_columns(lines[1]);
    lemma_line2_columns(lines[2]);
}

} // verus!
