//! Query-parameter parsing for the post-listing surface: bounded integers,
//! compact timestamps, a sort mode, and comma-separated lists, each parsed
//! from untrusted text with every rejection accounted for.

use vstd::prelude::*;

verus! {

/// How posts are ordered.
#[derive(Debug, Clone, Copy, PartialEq, Eq, Structural)]
pub enum SortMode {
    /// Highest-scoring first.
    Top,
    /// Newest first.
    New,
    /// Trending first.
    Hot,
}

/// The query parameter a rejection is about.
#[derive(Debug, Clone, Copy, PartialEq, Eq, Structural)]
pub enum QueryField {
    /// `depth`.
    Depth,
    /// `limit`.
    Limit,
    /// `before`.
    Before,
    /// `after`.
    After,
}

/// Why a query string was rejected.
#[derive(Debug, Clone, Copy, PartialEq, Eq, Structural)]
pub enum QueryError {
    /// A numeric field's value is empty.
    EmptyValue(QueryField),
    /// A field's value holds a character its grammar does not allow.
    InvalidCharacter(QueryField),
    /// A numeric field's value does not fit the accepted range.
    OutOfRange(QueryField),
    /// A timestamp field's value is too short to be a timestamp.
    NotEnoughData(QueryField),
    /// A timestamp field's value is longer than a timestamp.
    TooLong(QueryField),
    /// A timestamp field's value has the right shape but is no real date
    /// and time.
    Impossible(QueryField),
    /// The sort field's value names no known sort mode.
    BadSortValue,
    /// Both bounds were given, but `after` does not fall chronologically
    /// later than `before`.
    DatesOutOfOrder,
}

/// A calendar date with a time of day, second precision, as plain values.
#[derive(Debug, Clone, Copy, PartialEq, Eq, Structural)]
pub struct DateTime {
    /// Four-digit year.
    pub year: u16,
    /// Month, one-based.
    pub month: u8,
    /// Day of month, one-based.
    pub day: u8,
    /// Hour of day.
    pub hour: u8,
    /// Minute.
    pub minute: u8,
    /// Second.
    pub second: u8,
}

/// A leap year of the Gregorian calendar.
pub open spec fn is_leap_year(y: int) -> bool {
    (y % 4 == 0 && y % 100 != 0) || y % 400 == 0
}

/// How many days the month has.
pub open spec fn days_in_month(y: int, m: int) -> int {
    if m == 2 {
        if is_leap_year(y) {
            29
        } else {
            28
        }
    } else if m == 4 || m == 6 || m == 9 || m == 11 {
        30
    } else {
        31
    }
}

/// A date and time that exists on the calendar. The sixtieth second is
/// allowed: it names a leap second, as the calendar library at the
/// application edge accepts.
pub open spec fn valid_datetime(d: DateTime) -> bool {
    &&& d.year <= 9999
    &&& 1 <= d.month <= 12
    &&& 1 <= d.day <= days_in_month(d.year as int, d.month as int)
    &&& d.hour < 24
    &&& d.minute < 60
    &&& d.second <= 60
}

/// Strictly earlier in time: the fields compared most significant first.
pub open spec fn dt_lt(a: DateTime, b: DateTime) -> bool {
    if a.year != b.year {
        a.year < b.year
    } else if a.month != b.month {
        a.month < b.month
    } else if a.day != b.day {
        a.day < b.day
    } else if a.hour != b.hour {
        a.hour < b.hour
    } else if a.minute != b.minute {
        a.minute < b.minute
    } else {
        a.second < b.second
    }
}

/// Whether `a` lies strictly earlier than `b`.
pub fn datetime_lt(a: &DateTime, b: &DateTime) -> (r: bool)
    ensures
        r == dt_lt(*a, *b),
{
    if a.year != b.year {
        a.year < b.year
    } else if a.month != b.month {
        a.month < b.month
    } else if a.day != b.day {
        a.day < b.day
    } else if a.hour != b.hour {
        a.hour < b.hour
    } else if a.minute != b.minute {
        a.minute < b.minute
    } else {
        a.second < b.second
    }
}

/// ASCII decimal digit.
pub open spec fn is_ascii_digit(b: u8) -> bool {
    48 <= b <= 57
}

/// The numeric value of a run of digits, most significant first.
pub open spec fn num_val(s: Seq<u8>, start: int, count: int) -> int
    decreases count,
{
    if count <= 0 {
        0
    } else {
        num_val(s, start, count - 1) * 10 + (s[start + count - 1] - 48)
    }
}

/// Ten to the given power.
pub open spec fn pow10(n: int) -> int
    decreases n,
{
    if n <= 0 {
        1
    } else {
        10 * pow10(n - 1)
    }
}

/// The small powers of ten the parsers bound their digits by.
pub proof fn lemma_pow10_small()
    ensures
        pow10(0) == 1,
        pow10(1) == 10,
        pow10(2) == 100,
        pow10(3) == 1000,
        pow10(4) == 10000,
{
    assert(pow10(0) == 1);
    assert(pow10(1) == 10 * pow10(0));
    assert(pow10(2) == 10 * pow10(1));
    assert(pow10(3) == 10 * pow10(2));
    assert(pow10(4) == 10 * pow10(3));
}

/// A run of digits reads below ten to its length.
pub proof fn lemma_num_val_bound(s: Seq<u8>, start: int, count: int)
    requires
        0 <= start,
        0 <= count,
        start + count <= s.len(),
        forall|i: int| start <= i < start + count ==> is_ascii_digit(#[trigger] s[i]),
    ensures
        0 <= num_val(s, start, count) < pow10(count),
    decreases count,
{
    if count > 0 {
        lemma_num_val_bound(s, start, count - 1);
    }
}

/// Reads `count` digits at `start` as a number, most significant first.
fn parse_digits(s: &Vec<u8>, start: usize, count: usize) -> (r: u32)
    requires
        start + count <= s@.len(),
        count <= 4,
        forall|i: int| start <= i < start + count ==> is_ascii_digit(#[trigger] s@[i]),
    ensures
        r == num_val(s@, start as int, count as int),
{
    let n = s.len();
    let mut r: u32 = 0;
    let mut j: usize = 0;
    while j < count
        invariant
            0 <= j <= count <= 4,
            n == s@.len(),
            start + count <= s@.len(),
            forall|i: int| start <= i < start + count ==> is_ascii_digit(#[trigger] s@[i]),
            r == num_val(s@, start as int, j as int),
            r < pow10(j as int),
        decreases count - j,
    {
        proof {
            lemma_num_val_bound(s@, start as int, j as int);
            lemma_pow10_small();
        }
        let d = s[start + j];
        r = r * 10 + (d - 48) as u32;
        j += 1;
    }
    r
}

/// ASCII `T`, the timestamp's date/time separator.
pub const BYTE_T: u8 = 84;

/// ASCII `Z`, the timestamp's trailing zone mark.
pub const BYTE_Z: u8 = 90;

/// The compact timestamp shape: eight date digits, `T`, six time digits,
/// `Z` — sixteen bytes in all.
pub open spec fn iso_shape_ok(s: Seq<u8>) -> bool {
    &&& s.len() == 16
    &&& forall|i: int| 0 <= i < 8 ==> is_ascii_digit(#[trigger] s[i])
    &&& s[8] == BYTE_T
    &&& forall|i: int| 9 <= i < 15 ==> is_ascii_digit(#[trigger] s[i])
    &&& s[15] == BYTE_Z
}

/// What a well-shaped timestamp denotes, field by field.
pub open spec fn iso_value(s: Seq<u8>) -> DateTime {
    DateTime {
        year: num_val(s, 0, 4) as u16,
        month: num_val(s, 4, 2) as u8,
        day: num_val(s, 6, 2) as u8,
        hour: num_val(s, 9, 2) as u8,
        minute: num_val(s, 11, 2) as u8,
        second: num_val(s, 13, 2) as u8,
    }
}

/// Why a timestamp did not parse, without the field it belongs to.
#[derive(Debug, Clone, Copy, PartialEq, Eq, Structural)]
pub enum DateTimeParseError {
    /// Shorter than the sixteen-byte shape.
    TooShort,
    /// Longer than the sixteen-byte shape.
    TooLong,
    /// A byte where the shape wants a digit or a separator holds something
    /// else.
    InvalidCharacter,
    /// The shape is right but no such date and time exists.
    Impossible,
}

/// Parses the compact timestamp `YYYYMMDDTHHMMSSZ`. Exactly the
/// well-shaped texts denoting an existing date and time parse; every
/// other text is rejected for the stated reason.
pub fn parse_iso8601(s: &Vec<u8>) -> (r: Result<DateTime, DateTimeParseError>)
    ensures
        s@.len() < 16 ==> r matches Err(DateTimeParseError::TooShort),
        s@.len() > 16 ==> r matches Err(DateTimeParseError::TooLong),
        s@.len() == 16 && !iso_shape_ok(s@) ==> r matches Err(DateTimeParseError::InvalidCharacter),
        iso_shape_ok(s@) && !valid_datetime(iso_value(s@)) ==> r matches Err(
            DateTimeParseError::Impossible,
        ),
        iso_shape_ok(s@) && valid_datetime(iso_value(s@)) ==> r == Ok::<
            DateTime,
            DateTimeParseError,
        >(iso_value(s@)),
{
    if s.len() < 16 {
        return Err(DateTimeParseError::TooShort);
    }
    if s.len() > 16 {
        return Err(DateTimeParseError::TooLong);
    }
    let mut i: usize = 0;
    while i < 8
        invariant
            0 <= i <= 8,
            s@.len() == 16,
            forall|j: int| 0 <= j < i ==> is_ascii_digit(#[trigger] s@[j]),
        decreases 8 - i,
    {
        let b = s[i];
        if !(48 <= b && b <= 57) {
            return Err(DateTimeParseError::InvalidCharacter);
        }
        i += 1;
    }
    if s[8] != BYTE_T {
        return Err(DateTimeParseError::InvalidCharacter);
    }
    let mut i2: usize = 9;
    while i2 < 15
        invariant
            9 <= i2 <= 15,
            s@.len() == 16,
            forall|j: int| 9 <= j < i2 ==> is_ascii_digit(#[trigger] s@[j]),
        decreases 15 - i2,
    {
        let b = s[i2];
        if !(48 <= b && b <= 57) {
            return Err(DateTimeParseError::InvalidCharacter);
        }
        i2 += 1;
    }
    if s[15] != BYTE_Z {
        return Err(DateTimeParseError::InvalidCharacter);
    }
    proof {
        lemma_num_val_bound(s@, 0, 4);
        lemma_num_val_bound(s@, 4, 2);
        lemma_num_val_bound(s@, 6, 2);
        lemma_num_val_bound(s@, 9, 2);
        lemma_num_val_bound(s@, 11, 2);
        lemma_num_val_bound(s@, 13, 2);
        lemma_pow10_small();
    }
    let year = parse_digits(s, 0, 4) as u16;
    let month = parse_digits(s, 4, 2) as u8;
    let day = parse_digits(s, 6, 2) as u8;
    let hour = parse_digits(s, 9, 2) as u8;
    let minute = parse_digits(s, 11, 2) as u8;
    let second = parse_digits(s, 13, 2) as u8;
    let d = DateTime { year, month, day, hour, minute, second };
    proof {
        assert(d == iso_value(s@));
    }
    if month < 1 || month > 12 {
        return Err(DateTimeParseError::Impossible);
    }
    let leap = (year % 4 == 0 && year % 100 != 0) || year % 400 == 0;
    let max_day: u8 = if month == 2 {
        if leap {
            29
        } else {
            28
        }
    } else if month == 4 || month == 6 || month == 9 || month == 11 {
        30
    } else {
        31
    };
    if day < 1 || day > max_day {
        return Err(DateTimeParseError::Impossible);
    }
    if hour >= 24 || minute >= 60 || second > 60 {
        return Err(DateTimeParseError::Impossible);
    }
    Ok(d)
}

/// ASCII `+`.
pub const BYTE_PLUS: u8 = 43;

/// ASCII `,`.
pub const BYTE_COMMA: u8 = 44;

/// ASCII `-` (also the minus sign).
pub const BYTE_MINUS: u8 = 45;

/// Where an integer's digits start: after one optional sign.
pub open spec fn int_start(s: Seq<u8>) -> int {
    if s.len() > 0 && (s[0] == BYTE_PLUS || s[0] == BYTE_MINUS) {
        1
    } else {
        0
    }
}

/// The integer text denotes a negative number.
pub open spec fn int_negative(s: Seq<u8>) -> bool {
    s.len() > 0 && s[0] == BYTE_MINUS
}

/// No text at all. A bare sign is not empty: it holds an invalid digit.
pub open spec fn int_is_empty(s: Seq<u8>) -> bool {
    s.len() == 0
}

/// An optional sign followed by at least one digit and nothing else.
pub open spec fn int_shape_ok(s: Seq<u8>) -> bool {
    s.len() > int_start(s) && forall|i: int|
        int_start(s) <= i < s.len() ==> is_ascii_digit(#[trigger] s[i])
}

/// The unsigned value of the digits.
pub open spec fn int_magnitude(s: Seq<u8>) -> int {
    num_val(s, int_start(s), s.len() - int_start(s))
}

/// The signed value the text denotes.
pub open spec fn int_value(s: Seq<u8>) -> int {
    if int_negative(s) {
        -int_magnitude(s)
    } else {
        int_magnitude(s)
    }
}

/// Why integer text did not parse.
#[derive(Debug, Clone, Copy, PartialEq, Eq, Structural)]
pub enum IntParseError {
    /// No digits at all, sign or not.
    Empty,
    /// Something besides digits after the optional sign.
    InvalidDigit,
    /// The value does not fit a 32-bit signed integer.
    OutOfRange,
}

/// Parses a signed decimal 32-bit integer: an optional sign and digits,
/// nothing else. Exactly the well-shaped texts whose value fits parse.
pub fn parse_i32(s: &Vec<u8>) -> (r: Result<i32, IntParseError>)
    ensures
        int_is_empty(s@) ==> r == Err::<i32, IntParseError>(IntParseError::Empty),
        !int_is_empty(s@) && !int_shape_ok(s@) ==> r == Err::<i32, IntParseError>(
            IntParseError::InvalidDigit,
        ),
        int_shape_ok(s@) && !(-2147483648 <= int_value(s@) <= 2147483647) ==> r == Err::<
            i32,
            IntParseError,
        >(IntParseError::OutOfRange),
        int_shape_ok(s@) && -2147483648 <= int_value(s@) <= 2147483647 ==> (r matches Ok(v) && v
            as int == int_value(s@)),
{
    let n = s.len();
    let start: usize;
    let neg: bool;
    if n > 0 && (s[0] == BYTE_PLUS || s[0] == BYTE_MINUS) {
        start = 1;
        neg = s[0] == BYTE_MINUS;
    } else {
        start = 0;
        neg = false;
    }
    if n == 0 {
        return Err(IntParseError::Empty);
    }
    if n == start {
        return Err(IntParseError::InvalidDigit);
    }
    let mut i: usize = start;
    while i < n
        invariant
            start <= i <= n,
            n == s@.len(),
            start as int == int_start(s@),
            forall|j: int| start <= j < i ==> is_ascii_digit(#[trigger] s@[j]),
        decreases n - i,
    {
        let b = s[i];
        if !(48 <= b && b <= 57) {
            return Err(IntParseError::InvalidDigit);
        }
        i += 1;
    }
    let mut acc: u64 = 0;
    let mut over = false;
    let mut j: usize = start;
    while j < n
        invariant
            start <= j <= n,
            n == s@.len(),
            start as int == int_start(s@),
            int_shape_ok(s@),
            forall|k: int| start <= k < n ==> is_ascii_digit(#[trigger] s@[k]),
            !over ==> acc as int == num_val(s@, start as int, j - start) && acc <= 4294967295,
            over ==> num_val(s@, start as int, j - start) > 4294967295,
        decreases n - j,
    {
        let d = (s[j] - 48) as u64;
        proof {
            lemma_num_val_bound(s@, start as int, j - start as int);
        }
        if !over {
            acc = acc * 10 + d;
            if acc > 4294967295 {
                over = true;
            }
        } else {
            proof {
                let x = num_val(s@, start as int, j - start as int);
                assert(num_val(s@, start as int, j + 1 - start as int) == x * 10 + (s@[j as int]
                    - 48));
                assert(x * 10 + (s@[j as int] - 48) >= x);
            }
        }
        j += 1;
    }
    proof {
        assert(num_val(s@, start as int, n - start as int) == int_magnitude(s@));
    }
    if over {
        return Err(IntParseError::OutOfRange);
    }
    if neg {
        if acc > 2147483648 {
            Err(IntParseError::OutOfRange)
        } else if acc == 2147483648 {
            Ok(-2147483648)
        } else {
            Ok(-(acc as i32))
        }
    } else {
        if acc > 2147483647 {
            Err(IntParseError::OutOfRange)
        } else {
            Ok(acc as i32)
        }
    }
}

/// The half-open range `[a, b)` is one comma-separated segment of `s`:
/// it touches a comma or an end of the text on both sides and holds no
/// comma itself.
pub open spec fn segment_at(s: Seq<u8>, a: int, b: int) -> bool {
    &&& 0 <= a <= b <= s.len()
    &&& (a == 0 || s[a - 1] == BYTE_COMMA)
    &&& (b == s.len() || s[b] == BYTE_COMMA)
    &&& forall|k: int| a <= k < b ==> s[k] != BYTE_COMMA
}

/// Whether a byte string is among the views of a list's entries.
pub open spec fn among(r: Seq<Vec<u8>>, x: Seq<u8>) -> bool {
    exists|i: int| 0 <= i < r.len() && (#[trigger] r[i])@ == x
}

/// Some comma-separated segment of `s` reads exactly `x`.
pub open spec fn is_segment_value(s: Seq<u8>, x: Seq<u8>) -> bool {
    exists|a: int, b: int| #[trigger] segment_at(s, a, b) && x == s.subrange(a, b)
}

/// The comma-separated values of the text, as a set: the result holds
/// exactly the text's segments, each once, as a hash set of them would.
pub open spec fn csl_set_ok(s: Seq<u8>, r: Seq<Vec<u8>>) -> bool {
    &&& forall|i: int, j: int| 0 <= i < j < r.len() ==> (#[trigger] r[i])@ != (#[trigger] r[j])@
    &&& forall|x: Seq<u8>| among(r, x) <==> is_segment_value(s, x)
}

/// Whether the list holds these bytes already.
fn contains_bytes(r: &Vec<Vec<u8>>, x: &Vec<u8>) -> (found: bool)
    ensures
        found == among(r@, x@),
{
    let mut i: usize = 0;
    while i < r.len()
        invariant
            0 <= i <= r@.len(),
            forall|j: int| 0 <= j < i ==> (#[trigger] r@[j])@ != x@,
        decreases r@.len() - i,
    {
        if crate::paths::bytes_eq(&r[i], x) {
            return true;
        }
        i += 1;
    }
    false
}

/// Splits text on commas into the set of its segments: duplicates are kept
/// once, order is not part of the contract. An empty text yields the one
/// empty segment.
pub fn parse_csl(s: &Vec<u8>) -> (r: Vec<Vec<u8>>)
    ensures
        csl_set_ok(s@, r@),
{
    let n = s.len();
    let mut r: Vec<Vec<u8>> = Vec::new();
    let mut p: usize = 0;
    loop
        invariant
            0 <= p <= n,
            n == s@.len(),
            p == 0 || s@[p - 1] == BYTE_COMMA,
            forall|i: int, j: int| 0 <= i < j < r@.len() ==> (#[trigger] r@[i])@ != (
            #[trigger] r@[j])@,
            forall|i: int| 0 <= i < r@.len() ==> is_segment_value(s@, (#[trigger] r@[i])@),
            forall|a: int, b: int|
                #[trigger] segment_at(s@, a, b) && a < p ==> among(r@, s@.subrange(a, b)),
        decreases n - p + 1,
    {
        let mut q: usize = p;
        while q < n && s[q] != BYTE_COMMA
            invariant
                p <= q <= n,
                n == s@.len(),
                forall|k: int| p <= k < q ==> s@[k] != BYTE_COMMA,
            decreases n - q,
        {
            q += 1;
        }
        proof {
            assert(segment_at(s@, p as int, q as int));
        }
        let seg = crate::shard::sub_bytes(s, p, q);
        let ghost seg_view = s@.subrange(p as int, q as int);
        let ghost r_old = r@;
        let had = contains_bytes(&r, &seg);
        if !had {
            r.push(seg);
        }
        proof {
            if had {
                assert(r@ == r_old);
                let i = choose|i: int| 0 <= i < r_old.len() && (#[trigger] r_old[i])@ == seg_view;
                assert(r@[i]@ == seg_view);
            } else {
                assert(r@ =~= r_old.push(r@[r@.len() - 1]));
                assert(r@[r@.len() - 1]@ == seg_view);
                assert(forall|i: int| 0 <= i < r_old.len() ==> r@[i] == r_old[i]);
                assert(forall|i: int|
                    0 <= i < r@.len() - 1 ==> (#[trigger] r@[i])@ != seg_view);
            }
            assert(among(r@, seg_view));
            assert forall|x: Seq<u8>| among(r_old, x) implies among(r@, x) by {
                let i = choose|i: int| 0 <= i < r_old.len() && (#[trigger] r_old[i])@ == x;
                assert(r@[i]@ == x);
            }
            assert forall|i: int| 0 <= i < r@.len() implies is_segment_value(
                s@,
                (#[trigger] r@[i])@,
            ) by {
                if i < r_old.len() {
                    assert(r@[i] == r_old[i]);
                } else {
                    assert(r@[i]@ == seg_view);
                    assert(segment_at(s@, p as int, q as int) && seg_view == s@.subrange(
                        p as int,
                        q as int,
                    ));
                }
            }
            assert forall|a: int, b: int|
                #[trigger] segment_at(s@, a, b) && a < q + 1 implies among(r@, s@.subrange(a, b)) by {
                if a < p {
                    assert(among(r_old, s@.subrange(a, b)));
                    let i = choose|i: int|
                        0 <= i < r_old.len() && (#[trigger] r_old[i])@ == s@.subrange(a, b);
                    assert(r@[i]@ == s@.subrange(a, b));
                } else if a <= q {
                    if a > p {
                        assert(s@[a - 1] == BYTE_COMMA);
                        assert(p <= a - 1 < q);
                        assert(false);
                    }
                    assert(a == p);
                    if b != q {
                        if b < q {
                            assert(s@[b] == BYTE_COMMA);
                            assert(p <= b < q);
                            assert(false);
                        } else {
                            assert(q < b <= s@.len());
                            assert(q < s@.len());
                            assert(s@[q as int] != BYTE_COMMA);
                            assert(segment_at(s@, p as int, q as int));
                            assert(false);
                        }
                    }
                    assert(s@.subrange(a, b) == seg_view);
                }
            }
        }
        if q == n {
            proof {
                assert forall|a: int, b: int| #[trigger] segment_at(s@, a, b) implies among(
                    r@,
                    s@.subrange(a, b),
                ) by {
                    assert(a <= s@.len());
                    assert(a < q + 1);
                }
            }
            return r;
        }
        p = q + 1;
    }
}

/// The views of a parameter list's entries.
pub open spec fn param_views(ps: Seq<(Vec<u8>, Vec<u8>)>) -> Seq<(Seq<u8>, Seq<u8>)> {
    ps.map_values(|p: (Vec<u8>, Vec<u8>)| (p.0@, p.1@))
}

/// The first value stored under a key, as a query map would hand it out.
pub open spec fn lookup(ps: Seq<(Seq<u8>, Seq<u8>)>, k: Seq<u8>) -> Option<Seq<u8>>
    decreases ps.len(),
{
    if ps.len() == 0 {
        None
    } else if ps[0].0 == k {
        Some(ps[0].1)
    } else {
        lookup(ps.drop_first(), k)
    }
}

/// Finds the first value stored under a key.
fn find_param(params: &Vec<(Vec<u8>, Vec<u8>)>, key: &Vec<u8>) -> (r: Option<Vec<u8>>)
    ensures
        match r {
            Some(v) => lookup(param_views(params@), key@) == Some(v@),
            None => lookup(param_views(params@), key@) is None,
        },
{
    let ghost ps = param_views(params@);
    let mut i: usize = 0;
    proof {
        assert(ps.subrange(0, ps.len() as int) =~= ps);
    }
    while i < params.len()
        invariant
            0 <= i <= params@.len(),
            ps == param_views(params@),
            lookup(ps.subrange(i as int, ps.len() as int), key@) == lookup(ps, key@),
        decreases params@.len() - i,
    {
        let ghost suffix = ps.subrange(i as int, ps.len() as int);
        proof {
            assert(suffix[0] == ps[i as int]);
            assert(suffix.drop_first() =~= ps.subrange(i as int + 1, ps.len() as int));
        }
        if crate::paths::bytes_eq(&params[i].0, key) {
            return Some(crate::shard::copy_bytes(&params[i].1));
        }
        i += 1;
    }
    proof {
        assert(ps.subrange(ps.len() as int, ps.len() as int) =~= Seq::<(Seq<u8>, Seq<u8>)>::empty());
    }
    None
}

/// The key `depth`.
pub open spec fn depth_key() -> Seq<u8> {
    seq![100, 101, 112, 116, 104]
}

/// The key `limit`.
pub open spec fn limit_key() -> Seq<u8> {
    seq![108, 105, 109, 105, 116]
}

/// The key `sort`.
pub open spec fn sort_key() -> Seq<u8> {
    seq![115, 111, 114, 116]
}

/// The key `before`.
pub open spec fn before_key() -> Seq<u8> {
    seq![98, 101, 102, 111, 114, 101]
}

/// The key `after`.
pub open spec fn after_key() -> Seq<u8> {
    seq![97, 102, 116, 101, 114]
}

/// The key `fields`.
pub open spec fn fields_key() -> Seq<u8> {
    seq![102, 105, 101, 108, 100, 115]
}

/// The key `expansions`.
pub open spec fn expansions_key() -> Seq<u8> {
    seq![101, 120, 112, 97, 110, 115, 105, 111, 110, 115]
}

/// The key `tags`.
pub open spec fn tags_key() -> Seq<u8> {
    seq![116, 97, 103, 115]
}

/// The sort value `new`.
pub open spec fn new_value() -> Seq<u8> {
    seq![110, 101, 119]
}

/// The sort value `hot`.
pub open spec fn hot_value() -> Seq<u8> {
    seq![104, 111, 116]
}

/// The sort value `top`.
pub open spec fn top_value() -> Seq<u8> {
    seq![116, 111, 112]
}

/// A numeric field parses, or is absent (absence means zero).
pub open spec fn i32_field_ok(ps: Seq<(Seq<u8>, Seq<u8>)>, key: Seq<u8>) -> bool {
    match lookup(ps, key) {
        None => true,
        Some(v) => int_shape_ok(v) && -2147483648 <= int_value(v) <= 2147483647,
    }
}

/// What a numeric field denotes.
pub open spec fn i32_field_val(ps: Seq<(Seq<u8>, Seq<u8>)>, key: Seq<u8>) -> int {
    match lookup(ps, key) {
        None => 0,
        Some(v) => int_value(v),
    }
}

/// The rejection a failed numeric field raises.
pub open spec fn i32_field_err(ps: Seq<(Seq<u8>, Seq<u8>)>, key: Seq<u8>, f: QueryField) -> QueryError {
    match lookup(ps, key) {
        None => QueryError::EmptyValue(f),
        Some(v) => if int_is_empty(v) {
            QueryError::EmptyValue(f)
        } else if !int_shape_ok(v) {
            QueryError::InvalidCharacter(f)
        } else {
            QueryError::OutOfRange(f)
        },
    }
}

/// A timestamp field parses, or is absent.
pub open spec fn date_field_ok(ps: Seq<(Seq<u8>, Seq<u8>)>, key: Seq<u8>) -> bool {
    match lookup(ps, key) {
        None => true,
        Some(v) => iso_shape_ok(v) && valid_datetime(iso_value(v)),
    }
}

/// What a timestamp field denotes, when present.
pub open spec fn date_field_val(ps: Seq<(Seq<u8>, Seq<u8>)>, key: Seq<u8>) -> Option<DateTime> {
    match lookup(ps, key) {
        None => None,
        Some(v) => Some(iso_value(v)),
    }
}

/// The rejection a failed timestamp field raises.
pub open spec fn date_field_err(ps: Seq<(Seq<u8>, Seq<u8>)>, key: Seq<u8>, f: QueryField) -> QueryError {
    match lookup(ps, key) {
        None => QueryError::Impossible(f),
        Some(v) => if v.len() < 16 {
            QueryError::NotEnoughData(f)
        } else if v.len() > 16 {
            QueryError::TooLong(f)
        } else if !iso_shape_ok(v) {
            QueryError::InvalidCharacter(f)
        } else {
            QueryError::Impossible(f)
        },
    }
}

/// The sort field names a known mode, or is absent.
pub open spec fn sort_ok(ps: Seq<(Seq<u8>, Seq<u8>)>) -> bool {
    match lookup(ps, sort_key()) {
        None => true,
        Some(v) => v == new_value() || v == hot_value() || v == top_value(),
    }
}

/// What the sort field denotes; absence means newest-first.
pub open spec fn sort_val(ps: Seq<(Seq<u8>, Seq<u8>)>) -> SortMode {
    match lookup(ps, sort_key()) {
        None => SortMode::New,
        Some(v) => if v == hot_value() {
            SortMode::Hot
        } else if v == top_value() {
            SortMode::Top
        } else {
            SortMode::New
        },
    }
}

/// When both time bounds are given, `after` must fall strictly later than
/// `before`.
pub open spec fn order_ok(ps: Seq<(Seq<u8>, Seq<u8>)>) -> bool {
    match (date_field_val(ps, before_key()), date_field_val(ps, after_key())) {
        (Some(b), Some(a)) => dt_lt(b, a),
        _ => true,
    }
}

/// What a list field must hold: the comma-separated set of the value, or
/// nothing when the field is absent.
pub open spec fn csl_field_ok(ps: Seq<(Seq<u8>, Seq<u8>)>, key: Seq<u8>, out: Seq<Vec<u8>>) -> bool {
    match lookup(ps, key) {
        None => out.len() == 0,
        Some(v) => csl_set_ok(v, out),
    }
}

/// The first rejection the query raises, in the order the fields are
/// checked: `depth`, `limit`, `sort`, `before`, `after`, then the order of
/// the two bounds. The list fields cannot fail.
pub open spec fn query_error_of(ps: Seq<(Seq<u8>, Seq<u8>)>) -> Option<QueryError> {
    if !i32_field_ok(ps, depth_key()) {
        Some(i32_field_err(ps, depth_key(), QueryField::Depth))
    } else if !i32_field_ok(ps, limit_key()) {
        Some(i32_field_err(ps, limit_key(), QueryField::Limit))
    } else if !sort_ok(ps) {
        Some(QueryError::BadSortValue)
    } else if !date_field_ok(ps, before_key()) {
        Some(date_field_err(ps, before_key(), QueryField::Before))
    } else if !date_field_ok(ps, after_key()) {
        Some(date_field_err(ps, after_key(), QueryField::After))
    } else if !order_ok(ps) {
        Some(QueryError::DatesOutOfOrder)
    } else {
        None
    }
}

/// The parsed shape of a post-listing query.
#[derive(Debug)]
pub struct PostQueryParams {
    /// How deep to expand reply chains.
    pub depth: i32,
    /// How many posts to return.
    pub limit: i32,
    /// The ordering.
    pub sort: SortMode,
    /// Only posts before this instant.
    pub before: Option<DateTime>,
    /// Only posts after this instant.
    pub after: Option<DateTime>,
    /// Which fields to return.
    pub fields: Vec<Vec<u8>>,
    /// Which expansions to resolve.
    pub expansions: Vec<Vec<u8>>,
    /// Which tags to filter by.
    pub tags: Vec<Vec<u8>>,
}

impl Default for PostQueryParams {
    /// The query nothing was asked in: no depth, no limit, newest first,
    /// no bounds, no lists.
    fn default() -> (r: PostQueryParams)
        ensures
            r.depth == 0,
            r.limit == 0,
            r.sort == SortMode::New,
            r.before is None,
            r.after is None,
            r.fields@.len() == 0,
            r.expansions@.len() == 0,
            r.tags@.len() == 0,
    {
        PostQueryParams {
            depth: 0,
            limit: 0,
            sort: SortMode::New,
            before: None,
            after: None,
            fields: Vec::new(),
            expansions: Vec::new(),
            tags: Vec::new(),
        }
    }
}

impl PostQueryParams {
    /// Parses the post-listing query parameters. Every absent field takes
    /// its default; every present one must parse, and the first failure,
    /// in the fixed field order, is the rejection returned.
    pub fn from_query_params(params: &Vec<(Vec<u8>, Vec<u8>)>) -> (r: Result<
        PostQueryParams,
        QueryError,
    >)
        ensures
            match query_error_of(param_views(params@)) {
                Some(e) => r == Err::<PostQueryParams, QueryError>(e),
                None => r matches Ok(q) && {
                    let ps = param_views(params@);
                    &&& q.depth as int == i32_field_val(ps, depth_key())
                    &&& q.limit as int == i32_field_val(ps, limit_key())
                    &&& q.sort == sort_val(ps)
                    &&& q.before == date_field_val(ps, before_key())
                    &&& q.after == date_field_val(ps, after_key())
                    &&& csl_field_ok(ps, fields_key(), q.fields@)
                    &&& csl_field_ok(ps, expansions_key(), q.expansions@)
                    &&& csl_field_ok(ps, tags_key(), q.tags@)
                },
            },
    {
        let ghost ps = param_views(params@);
        let mut depth_key_b: Vec<u8> = Vec::new();
        depth_key_b.push(100);
        depth_key_b.push(101);
        depth_key_b.push(112);
        depth_key_b.push(116);
        depth_key_b.push(104);
        proof {
            assert(depth_key_b@ =~= depth_key());
        }
        let depth: i32 = match find_param(params, &depth_key_b) {
            None => 0,
            Some(v) => match parse_i32(&v) {
                Ok(d) => d,
                Err(IntParseError::Empty) => {
                    return Err(QueryError::EmptyValue(QueryField::Depth));
                },
                Err(IntParseError::InvalidDigit) => {
                    return Err(QueryError::InvalidCharacter(QueryField::Depth));
                },
                Err(IntParseError::OutOfRange) => {
                    return Err(QueryError::OutOfRange(QueryField::Depth));
                },
            },
        };
        let mut limit_key_b: Vec<u8> = Vec::new();
        limit_key_b.push(108);
        limit_key_b.push(105);
        limit_key_b.push(109);
        limit_key_b.push(105);
        limit_key_b.push(116);
        proof {
            assert(limit_key_b@ =~= limit_key());
        }
        let limit: i32 = match find_param(params, &limit_key_b) {
            None => 0,
            Some(v) => match parse_i32(&v) {
                Ok(d) => d,
                Err(IntParseError::Empty) => {
                    return Err(QueryError::EmptyValue(QueryField::Limit));
                },
                Err(IntParseError::InvalidDigit) => {
                    return Err(QueryError::InvalidCharacter(QueryField::Limit));
                },
                Err(IntParseError::OutOfRange) => {
                    return Err(QueryError::OutOfRange(QueryField::Limit));
                },
            },
        };
        let mut sort_key_b: Vec<u8> = Vec::new();
        sort_key_b.push(115);
        sort_key_b.push(111);
        sort_key_b.push(114);
        sort_key_b.push(116);
        proof {
            assert(sort_key_b@ =~= sort_key());
        }
        let mut new_b: Vec<u8> = Vec::new();
        new_b.push(110);
        new_b.push(101);
        new_b.push(119);
        let mut hot_b: Vec<u8> = Vec::new();
        hot_b.push(104);
        hot_b.push(111);
        hot_b.push(116);
        let mut top_b: Vec<u8> = Vec::new();
        top_b.push(116);
        top_b.push(111);
        top_b.push(112);
        proof {
            assert(new_b@ =~= new_value());
            assert(hot_b@ =~= hot_value());
            assert(top_b@ =~= top_value());
        }
        let sort: SortMode = match find_param(params, &sort_key_b) {
            None => SortMode::New,
            Some(v) => {
                if crate::paths::bytes_eq(&v, &hot_b) {
                    SortMode::Hot
                } else if crate::paths::bytes_eq(&v, &top_b) {
                    SortMode::Top
                } else if crate::paths::bytes_eq(&v, &new_b) {
                    SortMode::New
                } else {
                    return Err(QueryError::BadSortValue);
                }
            },
        };
        let mut before_key_b: Vec<u8> = Vec::new();
        before_key_b.push(98);
        before_key_b.push(101);
        before_key_b.push(102);
        before_key_b.push(111);
        before_key_b.push(114);
        before_key_b.push(101);
        proof {
            assert(before_key_b@ =~= before_key());
        }
        let before: Option<DateTime> = match find_param(params, &before_key_b) {
            None => None,
            Some(v) => match parse_iso8601(&v) {
                Ok(d) => Some(d),
                Err(DateTimeParseError::TooShort) => {
                    return Err(QueryError::NotEnoughData(QueryField::Before));
                },
                Err(DateTimeParseError::TooLong) => {
                    return Err(QueryError::TooLong(QueryField::Before));
                },
                Err(DateTimeParseError::InvalidCharacter) => {
                    return Err(QueryError::InvalidCharacter(QueryField::Before));
                },
                Err(DateTimeParseError::Impossible) => {
                    return Err(QueryError::Impossible(QueryField::Before));
                },
            },
        };
        let mut after_key_b: Vec<u8> = Vec::new();
        after_key_b.push(97);
        after_key_b.push(102);
        after_key_b.push(116);
        after_key_b.push(101);
        after_key_b.push(114);
        proof {
            assert(after_key_b@ =~= after_key());
        }
        let after: Option<DateTime> = match find_param(params, &after_key_b) {
            None => None,
            Some(v) => match parse_iso8601(&v) {
                Ok(d) => Some(d),
                Err(DateTimeParseError::TooShort) => {
                    return Err(QueryError::NotEnoughData(QueryField::After));
                },
                Err(DateTimeParseError::TooLong) => {
                    return Err(QueryError::TooLong(QueryField::After));
                },
                Err(DateTimeParseError::InvalidCharacter) => {
                    return Err(QueryError::InvalidCharacter(QueryField::After));
                },
                Err(DateTimeParseError::Impossible) => {
                    return Err(QueryError::Impossible(QueryField::After));
                },
            },
        };
        if let (Some(b), Some(a)) = (&before, &after) {
            if !datetime_lt(b, a) {
                return Err(QueryError::DatesOutOfOrder);
            }
        }
        let mut fields_key_b: Vec<u8> = Vec::new();
        fields_key_b.push(102);
        fields_key_b.push(105);
        fields_key_b.push(101);
        fields_key_b.push(108);
        fields_key_b.push(100);
        fields_key_b.push(115);
        proof {
            assert(fields_key_b@ =~= fields_key());
        }
        let fields: Vec<Vec<u8>> = match find_param(params, &fields_key_b) {
            None => Vec::new(),
            Some(v) => parse_csl(&v),
        };
        let mut expansions_key_b: Vec<u8> = Vec::new();
        expansions_key_b.push(101);
        expansions_key_b.push(120);
        expansions_key_b.push(112);
        expansions_key_b.push(97);
        expansions_key_b.push(110);
        expansions_key_b.push(115);
        expansions_key_b.push(105);
        expansions_key_b.push(111);
        expansions_key_b.push(110);
        expansions_key_b.push(115);
        proof {
            assert(expansions_key_b@ =~= expansions_key());
        }
        let expansions: Vec<Vec<u8>> = match find_param(params, &expansions_key_b) {
            None => Vec::new(),
            Some(v) => parse_csl(&v),
        };
        let mut tags_key_b: Vec<u8> = Vec::new();
        tags_key_b.push(116);
        tags_key_b.push(97);
        tags_key_b.push(103);
        tags_key_b.push(115);
        proof {
            assert(tags_key_b@ =~= tags_key());
        }
        let tags: Vec<Vec<u8>> = match find_param(params, &tags_key_b) {
            None => Vec::new(),
            Some(v) => parse_csl(&v),
        };
        Ok(PostQueryParams { depth, limit, sort, before, after, fields, expansions, tags })
    }
}

} // verus!
