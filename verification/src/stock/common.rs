use vstd::prelude::*;
use chrono::Datelike;
use crate::dates::Date;
use crate::dates::days_in_month_of;
use crate::errors::IngestError;

verus! {

/// List of all tickers in the database.
pub struct Tickers(pub Vec<Ticker>);

/// Individual ticker information.
#[derive(Clone, Debug)]
pub struct Ticker {
    pub pk: i32,
    pub file_code: String,
    pub ticker: String,
    pub title: String,
}

/// Whether `c` is a decimal digit.
pub open spec fn spec_digit(c: char) -> bool {
    48 <= c as int <= 57
}

/// The value of the decimal digit `c`.
pub open spec fn digit_val(c: char) -> int {
    c as int - 48
}

/// Whether `s` has the shape `YYYY-MM-DD`.
pub open spec fn valid_date_chars(s: Seq<char>) -> bool {
    &&& s.len() == 10
    &&& spec_digit(s[0]) && spec_digit(s[1]) && spec_digit(s[2]) && spec_digit(s[3])
    &&& s[4] == '-'
    &&& spec_digit(s[5]) && spec_digit(s[6])
    &&& s[7] == '-'
    &&& spec_digit(s[8]) && spec_digit(s[9])
}

/// The date spelled by a string of shape `YYYY-MM-DD`.
pub open spec fn parsed_date(s: Seq<char>) -> Date {
    Date {
        year: (1000 * digit_val(s[0]) + 100 * digit_val(s[1]) + 10 * digit_val(s[2]) + digit_val(
            s[3],
        )) as i32,
        month: (10 * digit_val(s[5]) + digit_val(s[6])) as u8,
        day: (10 * digit_val(s[8]) + digit_val(s[9])) as u8,
    }
}

/// Whether `s` spells a real calendar date as `YYYY-MM-DD`.
pub open spec fn valid_date_str(s: Seq<char>) -> bool {
    valid_date_chars(s) && parsed_date(s).wf()
}

/// The decimal digit at `i`, if there is one.
fn read_digit(s: &str, i: usize) -> (r: Option<u8>)
    requires
        i < s@.len(),
    ensures
        match r {
            Some(d) => spec_digit(s@[i as int]) && d as int == digit_val(s@[i as int]) && d < 10,
            None => !spec_digit(s@[i as int]),
        },
{
    let c = s.get_char(i);
    let v = c as u32;
    if 48 <= v && v <= 57 {
        Some((v - 48) as u8)
    } else {
        None
    }
}

/// Convert a date string of the form `YYYY-MM-DD` into a [`Date`].
///
/// Returns the spelled date exactly when the string has that shape and
/// names a real calendar date; every other input is rejected as a
/// decode failure.
pub fn convert_date_type(str_date: &String) -> (r: Result<Date, IngestError>)
    ensures
        match r {
            Ok(d) => valid_date_str(str_date@) && d == parsed_date(str_date@),
            Err(e) => e == IngestError::DecodeError && !valid_date_str(str_date@),
        },
{
    let s = str_date.as_str();
    if s.unicode_len() != 10 {
        return Err(IngestError::DecodeError);
    }
    if s.get_char(4) != '-' || s.get_char(7) != '-' {
        return Err(IngestError::DecodeError);
    }
    let d0 = match read_digit(s, 0) {
        Some(d) => d,
        None => { return Err(IngestError::DecodeError) },
    };
    let d1 = match read_digit(s, 1) {
        Some(d) => d,
        None => { return Err(IngestError::DecodeError) },
    };
    let d2 = match read_digit(s, 2) {
        Some(d) => d,
        None => { return Err(IngestError::DecodeError) },
    };
    let d3 = match read_digit(s, 3) {
        Some(d) => d,
        None => { return Err(IngestError::DecodeError) },
    };
    let d5 = match read_digit(s, 5) {
        Some(d) => d,
        None => { return Err(IngestError::DecodeError) },
    };
    let d6 = match read_digit(s, 6) {
        Some(d) => d,
        None => { return Err(IngestError::DecodeError) },
    };
    let d8 = match read_digit(s, 8) {
        Some(d) => d,
        None => { return Err(IngestError::DecodeError) },
    };
    let d9 = match read_digit(s, 9) {
        Some(d) => d,
        None => { return Err(IngestError::DecodeError) },
    };
    let year: i32 = 1000 * (d0 as i32) + 100 * (d1 as i32) + 10 * (d2 as i32) + (d3 as i32);
    let month: u8 = 10 * d5 + d6;
    let day: u8 = 10 * d8 + d9;
    if month < 1 || month > 12 {
        return Err(IngestError::DecodeError);
    }
    if day < 1 || day > days_in_month_of(year, month) {
        return Err(IngestError::DecodeError);
    }
    Ok(Date { year, month, day })
}

/// The civil calendar date of a unix timestamp (whole seconds): the
/// date is a pure function of the timestamp, and its value comes only
/// from the chrono crate.
pub uninterp spec fn civil_date_of(timestamp: int) -> Date;

/// Convert a u32 timestamp to a calendar date.
///
/// Relies on chrono's `DateTime::from_timestamp` and `date_naive`: the
/// date depends on the timestamp alone, is a real calendar date, and
/// every u32 timestamp is in chrono's supported range.
#[verifier::external_body]
pub fn convert_timestamp(timestamp: u32) -> (r: Date)
    ensures
        r == civil_date_of(timestamp as int) && r.wf(),
{
    let date = chrono::DateTime::from_timestamp(timestamp.into(), 0)
        .expect("Expected Vector of Timestamp integers")
        .date_naive();
    Date { year: date.year(), month: date.month() as u8, day: date.day() as u8 }
}

/// `10^k`.
pub open spec fn pow10(k: nat) -> nat
    decreases k,
{
    if k == 0 {
        1
    } else {
        10 * pow10((k - 1) as nat)
    }
}

proof fn lemma_pow10_pos(k: nat)
    ensures
        pow10(k) >= 1,
    decreases k,
{
    if k > 0 {
        lemma_pow10_pos((k - 1) as nat);
    }
}

/// The character of the decimal digit `d`.
pub open spec fn digit_char(d: int) -> char {
    ((48 + d) as u8) as char
}

/// A CIK code as storage writes it: the number's last ten decimal
/// digits, zero padded on the left.
pub open spec fn spec_cik(n: nat) -> Seq<char> {
    Seq::new(10, |i: int| digit_char(((n / pow10((9 - i) as nat)) % 10) as int))
}

/// Relies on `String::from_utf8`: bytes below 0x80 are ASCII and decode
/// to exactly those characters.
#[verifier::external_body]
fn ascii_to_string(bytes: Vec<u8>) -> (r: String)
    requires
        forall|i: int| 0 <= i < bytes@.len() ==> bytes@[i] < 128,
    ensures
        r@.len() == bytes@.len(),
        forall|i: int| 0 <= i < r@.len() ==> r@[i] == bytes@[i] as char,
{
    String::from_utf8(bytes).unwrap()
}

/// Render a CIK code the way the SEC datasets spell it: ten decimal
/// digits, zero padded. CIK codes are below `10^10` by definition.
pub fn pad_cik(n: u64) -> (r: String)
    requires
        n < 10_000_000_000,
    ensures
        r@ == spec_cik(n as nat),
        r@.len() == 10,
{
    let mut bytes: Vec<u8> = Vec::new();
    let mut p: u64 = 1_000_000_000;
    let mut i: usize = 0;
    proof {
        reveal_with_fuel(pow10, 11);
        assert(p as nat == pow10(9));
    }
    while i < 10
        invariant
            i <= 10,
            bytes@.len() == i,
            i < 10 ==> p as nat == pow10((9 - i) as nat),
            forall|j: int|
                0 <= j < i ==> bytes@[j] == 48 + ((n as nat / pow10((9 - j) as nat)) % 10),
        decreases 10 - i,
    {
        proof {
            lemma_pow10_pos((9 - i) as nat);
        }
        let d = ((n / p) % 10) as u8;
        bytes.push(48 + d);
        if i < 9 {
            proof {
                assert(pow10((9 - i) as nat) == 10 * pow10((8 - i) as nat));
                lemma_pow10_pos((8 - i) as nat);
            }
            p = p / 10;
        }
        i = i + 1;
    }
    let s = ascii_to_string(bytes);
    proof {
        assert(s@ =~= spec_cik(n as nat));
    }
    s
}

} // verus!
