//! Civil time for cookie expiry handling: a plain calendar record, the
//! HTTP date format ("Mon, 02 Jan 2006 15:04:05 GMT"), and a strict parser
//! for dates in that layout. The model stores UTC fields directly, so
//! `utc()` is the identity.
use vstd::prelude::*;

verus! {

/// A moment of civil time in UTC: calendar date, clock time, and weekday
/// (0 = Sunday). The zero value is midnight, January 1 of year 1 — a
/// Monday.
#[derive(Debug, Copy, Clone, Eq, PartialEq, Structural)]
pub struct Time {
    pub year: i32,
    pub month: u8,
    pub day: u8,
    pub hour: u8,
    pub minute: u8,
    pub second: u8,
    pub weekday: u8,
}

impl Time {
    /// Field ranges: a representable, four-digit-year civil time.
    pub open spec fn wf(&self) -> bool {
        &&& 1 <= self.month <= 12
        &&& 1 <= self.day <= 31
        &&& self.hour <= 23
        &&& self.minute <= 59
        &&& self.second <= 59
        &&& self.weekday <= 6
        &&& 1 <= self.year <= 9999
    }

    /// The calendar year.
    pub fn year(&self) -> (r: i32)
        ensures
            r == self.year,
    {
        self.year
    }

    /// This time in UTC; the model already stores UTC fields.
    pub fn utc(&self) -> (r: Time)
        ensures
            r == *self,
    {
        *self
    }
}

impl Default for Time {
    fn default() -> (r: Time)
        ensures
            r == (Time { year: 1, month: 1, day: 1, hour: 0, minute: 0, second: 0, weekday: 1 }),
            r.wf(),
    {
        Time { year: 1, month: 1, day: 1, hour: 0, minute: 0, second: 0, weekday: 1 }
    }
}

/// The decimal digit character for `d` (0 through 9).
pub open spec fn digit(d: int) -> char {
    if d == 0 {
        '0'
    } else if d == 1 {
        '1'
    } else if d == 2 {
        '2'
    } else if d == 3 {
        '3'
    } else if d == 4 {
        '4'
    } else if d == 5 {
        '5'
    } else if d == 6 {
        '6'
    } else if d == 7 {
        '7'
    } else if d == 8 {
        '8'
    } else {
        '9'
    }
}

/// Two zero-padded decimal digits.
pub open spec fn two_digits(n: int) -> Seq<char> {
    seq![digit(n / 10), digit(n % 10)]
}

/// Four zero-padded decimal digits.
pub open spec fn four_digits(n: int) -> Seq<char> {
    seq![digit(n / 1000), digit((n / 100) % 10), digit((n / 10) % 10), digit(n % 10)]
}

/// The three-letter weekday name (0 = Sunday).
pub open spec fn weekday_name(w: int) -> Seq<char> {
    if w == 0 {
        seq!['S', 'u', 'n']
    } else if w == 1 {
        seq!['M', 'o', 'n']
    } else if w == 2 {
        seq!['T', 'u', 'e']
    } else if w == 3 {
        seq!['W', 'e', 'd']
    } else if w == 4 {
        seq!['T', 'h', 'u']
    } else if w == 5 {
        seq!['F', 'r', 'i']
    } else {
        seq!['S', 'a', 't']
    }
}

/// The three-letter month name (1 = January).
pub open spec fn month_name(m: int) -> Seq<char> {
    if m == 1 {
        seq!['J', 'a', 'n']
    } else if m == 2 {
        seq!['F', 'e', 'b']
    } else if m == 3 {
        seq!['M', 'a', 'r']
    } else if m == 4 {
        seq!['A', 'p', 'r']
    } else if m == 5 {
        seq!['M', 'a', 'y']
    } else if m == 6 {
        seq!['J', 'u', 'n']
    } else if m == 7 {
        seq!['J', 'u', 'l']
    } else if m == 8 {
        seq!['A', 'u', 'g']
    } else if m == 9 {
        seq!['S', 'e', 'p']
    } else if m == 10 {
        seq!['O', 'c', 't']
    } else if m == 11 {
        seq!['N', 'o', 'v']
    } else {
        seq!['D', 'e', 'c']
    }
}

/// The HTTP date serialization of a time: weekday, day, month name, year,
/// clock time, and the literal GMT zone.
pub open spec fn http_date(t: Time) -> Seq<char> {
    weekday_name(t.weekday as int) + seq![',', ' '] + two_digits(t.day as int) + seq![' ']
        + month_name(t.month as int) + seq![' '] + four_digits(t.year as int) + seq![' ']
        + two_digits(t.hour as int) + seq![':'] + two_digits(t.minute as int) + seq![':']
        + two_digits(t.second as int) + seq![' ', 'G', 'M', 'T']
}

/// Relies on String::push: appends exactly one character.
#[verifier::external_body]
pub fn push_char(s: &mut String, c: char)
    ensures
        final(s)@ == old(s)@.push(c),
{
    s.push(c);
}

/// The digit character for a small number.
pub fn digit_char(d: u8) -> (c: char)
    requires
        d <= 9,
    ensures
        c == digit(d as int),
{
    match d {
        0 => '0',
        1 => '1',
        2 => '2',
        3 => '3',
        4 => '4',
        5 => '5',
        6 => '6',
        7 => '7',
        8 => '8',
        _ => '9',
    }
}

/// Append two zero-padded decimal digits.
fn push_two_digits(s: &mut String, n: u8)
    requires
        n <= 99,
    ensures
        final(s)@ == old(s)@ + two_digits(n as int),
{
    push_char(s, digit_char(n / 10));
    push_char(s, digit_char(n % 10));
    proof {
        assert(final(s)@ =~= old(s)@ + two_digits(n as int));
    }
}

/// Append a three-letter name.
fn push3(s: &mut String, a: char, b: char, c: char)
    ensures
        final(s)@ == old(s)@ + seq![a, b, c],
{
    push_char(s, a);
    push_char(s, b);
    push_char(s, c);
    proof {
        assert(final(s)@ =~= old(s)@ + seq![a, b, c]);
    }
}

fn push_weekday(s: &mut String, w: u8)
    requires
        w <= 6,
    ensures
        final(s)@ == old(s)@ + weekday_name(w as int),
{
    match w {
        0 => push3(s, 'S', 'u', 'n'),
        1 => push3(s, 'M', 'o', 'n'),
        2 => push3(s, 'T', 'u', 'e'),
        3 => push3(s, 'W', 'e', 'd'),
        4 => push3(s, 'T', 'h', 'u'),
        5 => push3(s, 'F', 'r', 'i'),
        _ => push3(s, 'S', 'a', 't'),
    }
}

fn push_month(s: &mut String, m: u8)
    requires
        1 <= m <= 12,
    ensures
        final(s)@ == old(s)@ + month_name(m as int),
{
    match m {
        1 => push3(s, 'J', 'a', 'n'),
        2 => push3(s, 'F', 'e', 'b'),
        3 => push3(s, 'M', 'a', 'r'),
        4 => push3(s, 'A', 'p', 'r'),
        5 => push3(s, 'M', 'a', 'y'),
        6 => push3(s, 'J', 'u', 'n'),
        7 => push3(s, 'J', 'u', 'l'),
        8 => push3(s, 'A', 'u', 'g'),
        9 => push3(s, 'S', 'e', 'p'),
        10 => push3(s, 'O', 'c', 't'),
        11 => push3(s, 'N', 'o', 'v'),
        _ => push3(s, 'D', 'e', 'c'),
    }
}

impl Time {
    /// The HTTP date serialization of this time.
    #[verifier::rlimit(60)]
    pub fn http_format(&self) -> (r: String)
        requires
            self.wf(),
        ensures
            r@ == http_date(*self),
    {
        let mut s = String::new();
        push_weekday(&mut s, self.weekday);
        push_char(&mut s, ',');
        push_char(&mut s, ' ');
        let ghost p1 = weekday_name(self.weekday as int) + seq![',', ' '];
        proof {
            assert(s@ =~= p1);
        }
        push_two_digits(&mut s, self.day);
        push_char(&mut s, ' ');
        push_month(&mut s, self.month);
        push_char(&mut s, ' ');
        let ghost p2 = p1 + two_digits(self.day as int) + seq![' '] + month_name(
            self.month as int,
        ) + seq![' '];
        proof {
            assert(s@ =~= p2);
        }
        let y = self.year;
        push_two_digits(&mut s, (y / 100) as u8);
        push_two_digits(&mut s, (y % 100) as u8);
        push_char(&mut s, ' ');
        let ghost p3 = p2 + four_digits(self.year as int) + seq![' '];
        proof {
            let yi = y as int;
            assert((yi / 100) / 10 == yi / 1000 && (yi / 100) % 10 == (yi / 100) % 10 && (yi % 100)
                / 10 == (yi / 10) % 10 && (yi % 100) % 10 == yi % 10) by (nonlinear_arith)
                requires
                    1 <= yi <= 9999,
            ;
            assert(two_digits((y / 100) as int) + two_digits((y % 100) as int) =~= four_digits(
                yi,
            ));
            assert(s@ =~= p3);
        }
        push_two_digits(&mut s, self.hour);
        push_char(&mut s, ':');
        push_two_digits(&mut s, self.minute);
        push_char(&mut s, ':');
        push_two_digits(&mut s, self.second);
        push_char(&mut s, ' ');
        push_char(&mut s, 'G');
        push_char(&mut s, 'M');
        push_char(&mut s, 'T');
        proof {
            assert(s@ =~= p3 + two_digits(self.hour as int) + seq![':'] + two_digits(
                self.minute as int,
            ) + seq![':'] + two_digits(self.second as int) + seq![' ', 'G', 'M', 'T']);
            assert(s@ =~= http_date(*self));
        }
        s
    }
}

// ---------------------------------------------------------------------------
// Parsing HTTP dates ("Mon, 02 Jan 2006 15:04:05 GMT").
// ---------------------------------------------------------------------------

/// Whether `c` is a decimal digit.
pub open spec fn is_dec_digit(c: char) -> bool {
    '0' <= c && c <= '9'
}

/// The value of a decimal digit character.
pub open spec fn digit_val(c: char) -> int {
    c as int - 48
}

/// The weekday encoded by a three-letter name, 0 = Sunday.
pub open spec fn wd_from(c0: char, c1: char, c2: char) -> Option<u8> {
    if c0 == 'S' && c1 == 'u' && c2 == 'n' {
        Some(0u8)
    } else if c0 == 'M' && c1 == 'o' && c2 == 'n' {
        Some(1u8)
    } else if c0 == 'T' && c1 == 'u' && c2 == 'e' {
        Some(2u8)
    } else if c0 == 'W' && c1 == 'e' && c2 == 'd' {
        Some(3u8)
    } else if c0 == 'T' && c1 == 'h' && c2 == 'u' {
        Some(4u8)
    } else if c0 == 'F' && c1 == 'r' && c2 == 'i' {
        Some(5u8)
    } else if c0 == 'S' && c1 == 'a' && c2 == 't' {
        Some(6u8)
    } else {
        None
    }
}

/// The month encoded by a three-letter name, 1 = January.
pub open spec fn mon_from(c0: char, c1: char, c2: char) -> Option<u8> {
    if c0 == 'J' && c1 == 'a' && c2 == 'n' {
        Some(1u8)
    } else if c0 == 'F' && c1 == 'e' && c2 == 'b' {
        Some(2u8)
    } else if c0 == 'M' && c1 == 'a' && c2 == 'r' {
        Some(3u8)
    } else if c0 == 'A' && c1 == 'p' && c2 == 'r' {
        Some(4u8)
    } else if c0 == 'M' && c1 == 'a' && c2 == 'y' {
        Some(5u8)
    } else if c0 == 'J' && c1 == 'u' && c2 == 'n' {
        Some(6u8)
    } else if c0 == 'J' && c1 == 'u' && c2 == 'l' {
        Some(7u8)
    } else if c0 == 'A' && c1 == 'u' && c2 == 'g' {
        Some(8u8)
    } else if c0 == 'S' && c1 == 'e' && c2 == 'p' {
        Some(9u8)
    } else if c0 == 'O' && c1 == 'c' && c2 == 't' {
        Some(10u8)
    } else if c0 == 'N' && c1 == 'o' && c2 == 'v' {
        Some(11u8)
    } else if c0 == 'D' && c1 == 'e' && c2 == 'c' {
        Some(12u8)
    } else {
        None
    }
}

/// Whether `y` is a leap year (Gregorian rule).
pub open spec fn is_leap_year(y: int) -> bool {
    (y % 4 == 0 && y % 100 != 0) || y % 400 == 0
}

/// Days in a month of a year.
pub open spec fn days_in(m: int, y: int) -> int {
    if m == 2 {
        if is_leap_year(y) {
            29
        } else {
            28
        }
    } else if m == 4 || m == 6 || m == 9 || m == 11 {
        30
    } else {
        31
    }
}

/// The weekday of a Gregorian calendar date, 0 = Sunday (Zeller's rule).
pub open spec fn weekday_of_date(y: int, m: int, d: int) -> int {
    let zm = if m < 3 {
        m + 12
    } else {
        m
    };
    let zy = if m < 3 {
        y - 1
    } else {
        y
    };
    let k = zy % 100;
    let j = zy / 100;
    let h = (d + (13 * (zm + 1)) / 5 + k + k / 4 + j / 4 + 5 * j) % 7;
    (h + 6) % 7
}

/// The value of two digit characters at position `i`.
pub open spec fn two_digit_val(s: Seq<char>, i: int) -> int {
    digit_val(s[i]) * 10 + digit_val(s[i + 1])
}

/// The value of four digit characters at position `i`.
pub open spec fn four_digit_val(s: Seq<char>, i: int) -> int {
    two_digit_val(s, i) * 100 + two_digit_val(s, i + 2)
}

/// Whether `s` is an RFC 1123 date: a weekday name, a two-digit day, a
/// month name, a four-digit year, a clock time, and a three-letter
/// upper-case zone name, with all fields in range.
pub open spec fn rfc1123_ok(s: Seq<char>) -> bool {
    &&& s.len() == 29
    &&& wd_from(s[0], s[1], s[2]) is Some
    &&& s[3] == ',' && s[4] == ' '
    &&& is_dec_digit(s[5]) && is_dec_digit(s[6]) && s[7] == ' '
    &&& mon_from(s[8], s[9], s[10]) is Some && s[11] == ' '
    &&& is_dec_digit(s[12]) && is_dec_digit(s[13]) && is_dec_digit(s[14]) && is_dec_digit(s[15])
        && s[16] == ' '
    &&& is_dec_digit(s[17]) && is_dec_digit(s[18]) && s[19] == ':'
    &&& is_dec_digit(s[20]) && is_dec_digit(s[21]) && s[22] == ':'
    &&& is_dec_digit(s[23]) && is_dec_digit(s[24]) && s[25] == ' '
    &&& 'A' <= s[26] && s[26] <= 'Z' && 'A' <= s[27] && s[27] <= 'Z' && 'A' <= s[28] && s[28]
        <= 'Z'
    &&& 1 <= four_digit_val(s, 12)
    &&& 1 <= two_digit_val(s, 5) <= days_in(
        mon_from(s[8], s[9], s[10]).unwrap() as int,
        four_digit_val(s, 12),
    )
    &&& two_digit_val(s, 17) <= 23
    &&& two_digit_val(s, 20) <= 59
    &&& two_digit_val(s, 23) <= 59
}

/// The time an RFC 1123 date denotes; the weekday comes from the date
/// itself, not from the name in the text.
pub open spec fn rfc1123_time(s: Seq<char>) -> Time {
    let y = four_digit_val(s, 12);
    let m = mon_from(s[8], s[9], s[10]).unwrap() as int;
    let d = two_digit_val(s, 5);
    Time {
        year: y as i32,
        month: m as u8,
        day: d as u8,
        hour: two_digit_val(s, 17) as u8,
        minute: two_digit_val(s, 20) as u8,
        second: two_digit_val(s, 23) as u8,
        weekday: weekday_of_date(y, m, d) as u8,
    }
}

/// The decimal value of the digit character at `i`.
pub fn digit_at(s: &str, i: usize) -> (r: Option<u8>)
    requires
        i < s@.len(),
    ensures
        match r {
            Some(d) => is_dec_digit(s@[i as int]) && d == digit_val(s@[i as int]) && d <= 9,
            None => !is_dec_digit(s@[i as int]),
        },
{
    let c = s.get_char(i);
    if c >= '0' && c <= '9' {
        Some(((c as u32) - 48) as u8)
    } else {
        None
    }
}

impl Time {
    /// Parse an RFC 1123 date such as "Mon, 02 Jan 2006 15:04:05 GMT". Any
    /// three-letter zone name is accepted and the fields are taken as UTC.
    pub fn parse_rfc1123(s: &str) -> (r: Option<Time>)
        ensures
            r == (if rfc1123_ok(s@) {
                Some(rfc1123_time(s@))
            } else {
                None::<Time>
            }),
            r matches Some(t) ==> t.wf(),
    {
        if s.unicode_len() != 29 {
            return None;
        }
        let weekday_name_ok = match (s.get_char(0), s.get_char(1), s.get_char(2)) {
            ('S', 'u', 'n') => true,
            ('M', 'o', 'n') => true,
            ('T', 'u', 'e') => true,
            ('W', 'e', 'd') => true,
            ('T', 'h', 'u') => true,
            ('F', 'r', 'i') => true,
            ('S', 'a', 't') => true,
            _ => false,
        };
        if !weekday_name_ok {
            return None;
        }
        if s.get_char(3) != ',' || s.get_char(4) != ' ' {
            return None;
        }
        let d1 = match digit_at(s, 5) {
            Some(d) => d,
            None => {
                return None;
            },
        };
        let d2 = match digit_at(s, 6) {
            Some(d) => d,
            None => {
                return None;
            },
        };
        if s.get_char(7) != ' ' {
            return None;
        }
        let month: u8 = match (s.get_char(8), s.get_char(9), s.get_char(10)) {
            ('J', 'a', 'n') => 1,
            ('F', 'e', 'b') => 2,
            ('M', 'a', 'r') => 3,
            ('A', 'p', 'r') => 4,
            ('M', 'a', 'y') => 5,
            ('J', 'u', 'n') => 6,
            ('J', 'u', 'l') => 7,
            ('A', 'u', 'g') => 8,
            ('S', 'e', 'p') => 9,
            ('O', 'c', 't') => 10,
            ('N', 'o', 'v') => 11,
            ('D', 'e', 'c') => 12,
            _ => {
                return None;
            },
        };
        if s.get_char(11) != ' ' {
            return None;
        }
        let y1 = match digit_at(s, 12) {
            Some(d) => d,
            None => {
                return None;
            },
        };
        let y2 = match digit_at(s, 13) {
            Some(d) => d,
            None => {
                return None;
            },
        };
        let y3 = match digit_at(s, 14) {
            Some(d) => d,
            None => {
                return None;
            },
        };
        let y4 = match digit_at(s, 15) {
            Some(d) => d,
            None => {
                return None;
            },
        };
        if s.get_char(16) != ' ' {
            return None;
        }
        let h1 = match digit_at(s, 17) {
            Some(d) => d,
            None => {
                return None;
            },
        };
        let h2 = match digit_at(s, 18) {
            Some(d) => d,
            None => {
                return None;
            },
        };
        if s.get_char(19) != ':' {
            return None;
        }
        let mi1 = match digit_at(s, 20) {
            Some(d) => d,
            None => {
                return None;
            },
        };
        let mi2 = match digit_at(s, 21) {
            Some(d) => d,
            None => {
                return None;
            },
        };
        if s.get_char(22) != ':' {
            return None;
        }
        let s1 = match digit_at(s, 23) {
            Some(d) => d,
            None => {
                return None;
            },
        };
        let s2 = match digit_at(s, 24) {
            Some(d) => d,
            None => {
                return None;
            },
        };
        if s.get_char(25) != ' ' {
            return None;
        }
        let z1 = s.get_char(26);
        let z2 = s.get_char(27);
        let z3 = s.get_char(28);
        if !(z1 >= 'A' && z1 <= 'Z' && z2 >= 'A' && z2 <= 'Z' && z3 >= 'A' && z3 <= 'Z') {
            return None;
        }
        let year: u32 = (y1 as u32) * 1000 + (y2 as u32) * 100 + (y3 as u32) * 10 + (y4 as u32);
        let day: u8 = d1 * 10 + d2;
        let hour: u8 = h1 * 10 + h2;
        let minute: u8 = mi1 * 10 + mi2;
        let second: u8 = s1 * 10 + s2;
        proof {
            assert(year as int == four_digit_val(s@, 12));
            assert(day as int == two_digit_val(s@, 5));
        }
        if year == 0 {
            return None;
        }
        if day == 0 || day > days_in_month(month, year as i32) {
            return None;
        }
        if hour > 23 || minute > 59 || second > 59 {
            return None;
        }
        let weekday = weekday_for(year as i32, month, day);
        Some(
            Time {
                year: year as i32,
                month,
                day,
                hour,
                minute,
                second,
                weekday,
            },
        )
    }
}

/// The number of days in a month.
#[verifier::rlimit(60)]
fn days_in_month(m: u8, y: i32) -> (r: u8)
    requires
        y >= 1,
    ensures
        r as int == days_in(m as int, y as int),
{
    if m == 2 {
        if (y % 4 == 0 && y % 100 != 0) || y % 400 == 0 {
            29
        } else {
            28
        }
    } else if m == 4 || m == 6 || m == 9 || m == 11 {
        30
    } else {
        31
    }
}

/// The weekday of a date, 0 = Sunday.
fn weekday_for(y: i32, m: u8, d: u8) -> (r: u8)
    requires
        1 <= y <= 9999,
        1 <= m <= 12,
        1 <= d <= 31,
    ensures
        r as int == weekday_of_date(y as int, m as int, d as int),
        r <= 6,
{
    let zm: i32 = if m < 3 {
        m as i32 + 12
    } else {
        m as i32
    };
    let zy: i32 = if m < 3 {
        y - 1
    } else {
        y
    };
    let k = zy % 100;
    let j = zy / 100;
    let h = ((d as i32) + (13 * (zm + 1)) / 5 + k + k / 4 + j / 4 + 5 * j) % 7;
    ((h + 6) % 7) as u8
}

} // verus!
