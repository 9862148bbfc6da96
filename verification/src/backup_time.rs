//! Snapshot timestamps: second precision, rendered and parsed in the
//! fixed grammar `YYYY-MM-DDTHH:MM:SS+HH:MM` that names snapshot
//! directories. No fractional seconds exist, and only non-negative zone
//! offsets are part of the grammar.

use vstd::prelude::*;

use crate::error::StoreError;

verus! {

/// One snapshot timestamp, split into calendar fields plus a
/// non-negative UTC offset in hours and minutes.
#[derive(Clone, Copy, Debug, PartialEq, Eq, Structural)]
pub struct BackupTime {
    pub year: u16,
    pub month: u8,
    pub day: u8,
    pub hour: u8,
    pub minute: u8,
    pub second: u8,
    pub tz_hour: u8,
    pub tz_minute: u8,
}

/// True in a Gregorian leap year.
pub open spec fn is_leap_year(y: int) -> bool {
    y % 4 == 0 && (y % 100 != 0 || y % 400 == 0)
}

/// How many days the month has.
pub open spec fn days_in_month(y: int, m: int) -> int
    recommends
        1 <= m <= 12,
{
    if m == 2 {
        if is_leap_year(y) {
            29
        } else {
            28
        }
    } else if m == 4 || m == 6 || m == 9 || m == 11 {
        30
    } else {
        31
    }
}

impl BackupTime {
    /// The fields name a real calendar second with an offset below one day.
    pub open spec fn valid(&self) -> bool {
        &&& self.year <= 9999
        &&& 1 <= self.month <= 12
        &&& 1 <= self.day <= days_in_month(self.year as int, self.month as int)
        &&& self.hour <= 23
        &&& self.minute <= 59
        &&& self.second <= 59
        &&& self.tz_hour <= 23
        &&& self.tz_minute <= 59
    }
}

/// The decimal character for a value below 10.
pub open spec fn digit_char(n: int) -> char
    recommends
        0 <= n <= 9,
{
    if n == 0 {
        '0'
    } else if n == 1 {
        '1'
    } else if n == 2 {
        '2'
    } else if n == 3 {
        '3'
    } else if n == 4 {
        '4'
    } else if n == 5 {
        '5'
    } else if n == 6 {
        '6'
    } else if n == 7 {
        '7'
    } else if n == 8 {
        '8'
    } else {
        '9'
    }
}

/// True for a decimal digit character.
pub open spec fn is_digit(c: char) -> bool {
    48 <= c as u32 <= 57
}

/// The numeric value of a digit character.
pub open spec fn digit_val(c: char) -> int
    recommends
        is_digit(c),
{
    c as u32 - 48
}

/// A value below 100 as two decimal characters.
pub open spec fn two_digits(n: int) -> Seq<char>
    recommends
        0 <= n <= 99,
{
    seq![digit_char(n / 10), digit_char(n % 10)]
}

/// A value below 10000 as four decimal characters.
pub open spec fn four_digits(n: int) -> Seq<char>
    recommends
        0 <= n <= 9999,
{
    seq![
        digit_char(n / 1000 % 10),
        digit_char(n / 100 % 10),
        digit_char(n / 10 % 10),
        digit_char(n % 10),
    ]
}

/// The 25-character rendering of a timestamp.
pub open spec fn rfc3339_render(t: BackupTime) -> Seq<char> {
    four_digits(t.year as int) + seq!['-'] + two_digits(t.month as int) + seq!['-'] + two_digits(
        t.day as int,
    ) + seq!['T'] + two_digits(t.hour as int) + seq![':'] + two_digits(t.minute as int) + seq![':']
        + two_digits(t.second as int) + seq!['+'] + two_digits(t.tz_hour as int) + seq![':']
        + two_digits(t.tz_minute as int)
}

/// True when the characters have the shape `YYYY-MM-DDTHH:MM:SS+HH:MM`.
pub open spec fn time_shape_ok(s: Seq<char>) -> bool {
    &&& s.len() == 25
    &&& is_digit(s[0]) && is_digit(s[1]) && is_digit(s[2]) && is_digit(s[3])
    &&& s[4] == '-'
    &&& is_digit(s[5]) && is_digit(s[6])
    &&& s[7] == '-'
    &&& is_digit(s[8]) && is_digit(s[9])
    &&& s[10] == 'T'
    &&& is_digit(s[11]) && is_digit(s[12])
    &&& s[13] == ':'
    &&& is_digit(s[14]) && is_digit(s[15])
    &&& s[16] == ':'
    &&& is_digit(s[17]) && is_digit(s[18])
    &&& s[19] == '+'
    &&& is_digit(s[20]) && is_digit(s[21])
    &&& s[22] == ':'
    &&& is_digit(s[23]) && is_digit(s[24])
}

/// The fields read from characters of the right shape.
pub open spec fn time_fields(s: Seq<char>) -> BackupTime
    recommends
        time_shape_ok(s),
{
    BackupTime {
        year: (digit_val(s[0]) * 1000 + digit_val(s[1]) * 100 + digit_val(s[2]) * 10 + digit_val(
            s[3],
        )) as u16,
        month: (digit_val(s[5]) * 10 + digit_val(s[6])) as u8,
        day: (digit_val(s[8]) * 10 + digit_val(s[9])) as u8,
        hour: (digit_val(s[11]) * 10 + digit_val(s[12])) as u8,
        minute: (digit_val(s[14]) * 10 + digit_val(s[15])) as u8,
        second: (digit_val(s[17]) * 10 + digit_val(s[18])) as u8,
        tz_hour: (digit_val(s[20]) * 10 + digit_val(s[21])) as u8,
        tz_minute: (digit_val(s[23]) * 10 + digit_val(s[24])) as u8,
    }
}

/// What parsing a timestamp yields: the fields, when the shape matches
/// and they name a real calendar second; nothing otherwise.
pub open spec fn time_parse(s: Seq<char>) -> Option<BackupTime> {
    if time_shape_ok(s) && time_fields(s).valid() {
        Some(time_fields(s))
    } else {
        None
    }
}

/// The one-character string for a decimal digit value.
fn digit_str(n: u8) -> (r: &'static str)
    requires
        n <= 9,
    ensures
        r@ == seq![digit_char(n as int)],
{
    let r: &'static str = match n {
        0 => "0",
        1 => "1",
        2 => "2",
        3 => "3",
        4 => "4",
        5 => "5",
        6 => "6",
        7 => "7",
        8 => "8",
        _ => "9",
    };
    proof {
        reveal_strlit("0");
        reveal_strlit("1");
        reveal_strlit("2");
        reveal_strlit("3");
        reveal_strlit("4");
        reveal_strlit("5");
        reveal_strlit("6");
        reveal_strlit("7");
        reveal_strlit("8");
        reveal_strlit("9");
        assert(r@ =~= seq![digit_char(n as int)]);
    }
    r
}

/// Append `n` as exactly two decimal characters.
fn push_two_digits(s: &mut String, n: u8)
    requires
        n <= 99,
    ensures
        final(s)@ == old(s)@ + two_digits(n as int),
{
    s.append(digit_str(n / 10));
    s.append(digit_str(n % 10));
    proof {
        assert(final(s)@ =~= old(s)@ + two_digits(n as int));
    }
}

impl BackupTime {
    /// Render the timestamp in the snapshot directory grammar.
    pub fn to_rfc3339(&self) -> (r: String)
        requires
            self.year <= 9999,
            self.month <= 99,
            self.day <= 99,
            self.hour <= 99,
            self.minute <= 99,
            self.second <= 99,
            self.tz_hour <= 99,
            self.tz_minute <= 99,
        ensures
            r@ == rfc3339_render(*self),
    {
        let mut s = String::new();
        let y = self.year;
        s.append(digit_str((y / 1000 % 10) as u8));
        s.append(digit_str((y / 100 % 10) as u8));
        s.append(digit_str((y / 10 % 10) as u8));
        s.append(digit_str((y % 10) as u8));
        s.append("-");
        push_two_digits(&mut s, self.month);
        s.append("-");
        push_two_digits(&mut s, self.day);
        s.append("T");
        push_two_digits(&mut s, self.hour);
        s.append(":");
        push_two_digits(&mut s, self.minute);
        s.append(":");
        push_two_digits(&mut s, self.second);
        s.append("+");
        push_two_digits(&mut s, self.tz_hour);
        s.append(":");
        push_two_digits(&mut s, self.tz_minute);
        proof {
            reveal_strlit("-");
            reveal_strlit("T");
            reveal_strlit(":");
            reveal_strlit("+");
            assert(s@ =~= rfc3339_render(*self));
        }
        s
    }

    /// True when the fields name a real calendar second.
    pub fn is_valid_time(&self) -> (r: bool)
        ensures
            r == self.valid(),
    {
        if self.month < 1 || self.month > 12 {
            return false;
        }
        let dim = exec_days_in_month(self.year, self.month);
        self.year <= 9999 && self.day >= 1 && self.day <= dim && self.hour <= 23 && self.minute
            <= 59 && self.second <= 59 && self.tz_hour <= 23 && self.tz_minute <= 59
    }

    /// Parse a timestamp from the snapshot directory grammar. Fails with
    /// a format error exactly when the shape does not match or the
    /// fields name no real calendar second.
    pub fn parse_rfc3339(s: &str) -> (r: Result<BackupTime, StoreError>)
        ensures
            r is Ok <==> time_parse(s@) is Some,
            r is Ok ==> time_parse(s@) == Some(r->Ok_0),
            r is Err ==> r == Result::<BackupTime, StoreError>::Err(StoreError::Format),
    {
        let t = Self::parse_rfc3339_fields(s)?;
        if !t.is_valid_time() {
            return Err(StoreError::Format);
        }
        Ok(t)
    }

    /// Read the fields of a timestamp whose shape matches the grammar,
    /// without checking that they name a real calendar second.
    pub fn parse_rfc3339_fields(s: &str) -> (r: Result<BackupTime, StoreError>)
        ensures
            r is Ok <==> time_shape_ok(s@),
            r is Ok ==> r->Ok_0 == time_fields(s@),
            r is Err ==> r == Result::<BackupTime, StoreError>::Err(StoreError::Format),
    {
        let n = s.unicode_len();
        if n != 25 {
            return Err(StoreError::Format);
        }
        let sep = [(4, '-'), (7, '-'), (10, 'T'), (13, ':'), (16, ':'), (19, '+'), (22, ':')];
        let mut k: usize = 0;
        while k < 7
            invariant
                k <= 7,
                s@.len() == 25,
                (sep@ =~= seq![
                    (4usize, '-'),
                    (7usize, '-'),
                    (10usize, 'T'),
                    (13usize, ':'),
                    (16usize, ':'),
                    (19usize, '+'),
                    (22usize, ':'),
                ]),
                forall|j: int| 0 <= j < k ==> s@[sep@[j].0 as int] == sep@[j].1,
            decreases 7 - k,
        {
            let (pos, want) = sep[k];
            if s.get_char(pos) != want {
                return Err(StoreError::Format);
            }
            k = k + 1;
        }
        let d0 = parse_digit(s, 0)?;
        let d1 = parse_digit(s, 1)?;
        let d2 = parse_digit(s, 2)?;
        let d3 = parse_digit(s, 3)?;
        let month = parse_two_digits(s, 5)?;
        let day = parse_two_digits(s, 8)?;
        let hour = parse_two_digits(s, 11)?;
        let minute = parse_two_digits(s, 14)?;
        let second = parse_two_digits(s, 17)?;
        let tz_hour = parse_two_digits(s, 20)?;
        let tz_minute = parse_two_digits(s, 23)?;
        let year: u16 = d0 as u16 * 1000 + d1 as u16 * 100 + d2 as u16 * 10 + d3 as u16;
        let t = BackupTime { year, month, day, hour, minute, second, tz_hour, tz_minute };
        assert(time_shape_ok(s@));
        assert(t == time_fields(s@));
        Ok(t)
    }
}

/// How many days the month has.
pub fn exec_days_in_month(year: u16, month: u8) -> (r: u8)
    requires
        1 <= month <= 12,
    ensures
        r == days_in_month(year as int, month as int),
{
    if month == 2 {
        if year % 4 == 0 && (year % 100 != 0 || year % 400 == 0) {
            29
        } else {
            28
        }
    } else if month == 4 || month == 6 || month == 9 || month == 11 {
        30
    } else {
        31
    }
}

/// Read the digit at position `i`.
fn parse_digit(s: &str, i: usize) -> (r: Result<u8, StoreError>)
    requires
        i < s@.len(),
    ensures
        r is Ok <==> is_digit(s@[i as int]),
        r is Ok ==> r->Ok_0 <= 9 && r->Ok_0 == digit_val(s@[i as int]),
        r is Err ==> r == Result::<u8, StoreError>::Err(StoreError::Format),
{
    let c = s.get_char(i);
    let v = c as u32;
    if 48 <= v && v <= 57 {
        Ok((v - 48) as u8)
    } else {
        Err(StoreError::Format)
    }
}

/// Read the two-digit value at positions `i` and `i + 1`.
fn parse_two_digits(s: &str, i: usize) -> (r: Result<u8, StoreError>)
    requires
        i < usize::MAX,
        i + 1 < s@.len(),
    ensures
        r is Ok <==> (is_digit(s@[i as int]) && is_digit(s@[i + 1])),
        r is Ok ==> r->Ok_0 <= 99 && r->Ok_0 == digit_val(s@[i as int]) * 10 + digit_val(
            s@[i + 1],
        ),
        r is Err ==> r == Result::<u8, StoreError>::Err(StoreError::Format),
{
    let hi = parse_digit(s, i)?;
    let lo = parse_digit(s, i + 1)?;
    Ok(hi * 10 + lo)
}

/// Reading back a digit character yields the digit.
pub proof fn lemma_digit_char_val(n: int)
    requires
        0 <= n <= 9,
    ensures
        is_digit(digit_char(n)),
        digit_val(digit_char(n)) == n,
{
}

/// A digit character is determined by its value.
pub proof fn lemma_digit_val_char(c: char)
    requires
        is_digit(c),
    ensures
        digit_char(digit_val(c)) == c,
{
    let v = c as u32;
    assert(48 <= v <= 57);
    assert(c == digit_char(v - 48)) by {
        if v == 48 {
            assert(c == '0');
        } else if v == 49 {
            assert(c == '1');
        } else if v == 50 {
            assert(c == '2');
        } else if v == 51 {
            assert(c == '3');
        } else if v == 52 {
            assert(c == '4');
        } else if v == 53 {
            assert(c == '5');
        } else if v == 54 {
            assert(c == '6');
        } else if v == 55 {
            assert(c == '7');
        } else if v == 56 {
            assert(c == '8');
        } else {
            assert(c == '9');
        }
    }
}

/// The rendering, written out character by character.
#[verifier::rlimit(60)]
pub proof fn lemma_render_unfold(t: BackupTime)
    ensures
        rfc3339_render(t) == seq![
            digit_char(t.year as int / 1000 % 10),
            digit_char(t.year as int / 100 % 10),
            digit_char(t.year as int / 10 % 10),
            digit_char(t.year as int % 10),
            '-',
            digit_char(t.month as int / 10),
            digit_char(t.month as int % 10),
            '-',
            digit_char(t.day as int / 10),
            digit_char(t.day as int % 10),
            'T',
            digit_char(t.hour as int / 10),
            digit_char(t.hour as int % 10),
            ':',
            digit_char(t.minute as int / 10),
            digit_char(t.minute as int % 10),
            ':',
            digit_char(t.second as int / 10),
            digit_char(t.second as int % 10),
            '+',
            digit_char(t.tz_hour as int / 10),
            digit_char(t.tz_hour as int % 10),
            ':',
            digit_char(t.tz_minute as int / 10),
            digit_char(t.tz_minute as int % 10),
        ],
{
    assert(rfc3339_render(t) =~= seq![
        digit_char(t.year as int / 1000 % 10),
        digit_char(t.year as int / 100 % 10),
        digit_char(t.year as int / 10 % 10),
        digit_char(t.year as int % 10),
        '-',
        digit_char(t.month as int / 10),
        digit_char(t.month as int % 10),
        '-',
        digit_char(t.day as int / 10),
        digit_char(t.day as int % 10),
        'T',
        digit_char(t.hour as int / 10),
        digit_char(t.hour as int % 10),
        ':',
        digit_char(t.minute as int / 10),
        digit_char(t.minute as int % 10),
        ':',
        digit_char(t.second as int / 10),
        digit_char(t.second as int % 10),
        '+',
        digit_char(t.tz_hour as int / 10),
        digit_char(t.tz_hour as int % 10),
        ':',
        digit_char(t.tz_minute as int / 10),
        digit_char(t.tz_minute as int % 10),
    ]);
}

/// Law: rendering a valid timestamp and parsing the result yields the
/// same timestamp.
#[verifier::rlimit(80)]
pub proof fn lemma_time_round_trip(t: BackupTime)
    requires
        t.valid(),
    ensures
        time_parse(rfc3339_render(t)) == Some(t),
{
    let s = rfc3339_render(t);
    lemma_render_unfold(t);
    assert forall|n: int| 0 <= n <= 9 implies is_digit(digit_char(n)) && digit_val(digit_char(n))
        == n by {
        lemma_digit_char_val(n);
    }
    assert(time_shape_ok(s));
    assert(time_fields(s) == t) by {
        assert(digit_val(s[0]) == t.year as int / 1000 % 10);
        assert(digit_val(s[1]) == t.year as int / 100 % 10);
        assert(digit_val(s[2]) == t.year as int / 10 % 10);
        assert(digit_val(s[3]) == t.year as int % 10);
        assert(t.year as int / 1000 % 10 * 1000 + t.year as int / 100 % 10 * 100 + t.year as int
            / 10 % 10 * 10 + t.year as int % 10 == t.year as int);
    }
}

/// A four-digit number determines its digits.
#[verifier::rlimit(100)]
#[verifier::spinoff_prover]
pub proof fn lemma_four_digit_decomp(a: int, b: int, c: int, d: int)
    requires
        0 <= a <= 9,
        0 <= b <= 9,
        0 <= c <= 9,
        0 <= d <= 9,
    ensures
        (a * 1000 + b * 100 + c * 10 + d) / 1000 % 10 == a,
        (a * 1000 + b * 100 + c * 10 + d) / 100 % 10 == b,
        (a * 1000 + b * 100 + c * 10 + d) / 10 % 10 == c,
        (a * 1000 + b * 100 + c * 10 + d) % 10 == d,
{
}

/// Law: parsing a timestamp string and rendering the result yields the
/// same string.
#[verifier::rlimit(80)]
pub proof fn lemma_time_parse_render(s: Seq<char>)
    requires
        time_parse(s) is Some,
    ensures
        rfc3339_render(time_parse(s)->0) == s,
{
    let t = time_fields(s);
    lemma_render_unfold(t);
    lemma_digit_val_char(s[0]);
    lemma_digit_val_char(s[1]);
    lemma_digit_val_char(s[2]);
    lemma_digit_val_char(s[3]);
    lemma_digit_val_char(s[5]);
    lemma_digit_val_char(s[6]);
    lemma_digit_val_char(s[8]);
    lemma_digit_val_char(s[9]);
    lemma_digit_val_char(s[11]);
    lemma_digit_val_char(s[12]);
    lemma_digit_val_char(s[14]);
    lemma_digit_val_char(s[15]);
    lemma_digit_val_char(s[17]);
    lemma_digit_val_char(s[18]);
    lemma_digit_val_char(s[20]);
    lemma_digit_val_char(s[21]);
    lemma_digit_val_char(s[23]);
    lemma_digit_val_char(s[24]);
    lemma_four_digit_decomp(digit_val(s[0]), digit_val(s[1]), digit_val(s[2]), digit_val(s[3]));
    assert(rfc3339_render(t) =~= s);
}

} // verus!
