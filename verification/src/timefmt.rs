//! Timestamps: the current Unix time and its ISO-8601 UTC text.
use vstd::prelude::*;
use crate::config::{all_digits, digits_value, is_digit};

verus! {

// ---------------------------------------------------------------------------
// The calendar, stated directly.
// ---------------------------------------------------------------------------
/// Whether `y` is a leap year of the proleptic Gregorian calendar.
pub open spec fn is_leap(y: int) -> bool {
    (y % 4 == 0 && y % 100 != 0) || y % 400 == 0
}

/// The number of days in year `y`.
pub open spec fn year_len(y: int) -> int {
    if is_leap(y) {
        366
    } else {
        365
    }
}

/// The number of days in month `m` (1 to 12) of year `y`.
pub open spec fn month_len(y: int, m: int) -> int {
    if m == 2 {
        if is_leap(y) {
            29
        } else {
            28
        }
    } else if m == 4 || m == 6 || m == 9 || m == 11 {
        30
    } else {
        31
    }
}

/// The number of days in the months of year `y` before month `m`.
pub open spec fn days_before_month(y: int, m: int) -> int
    decreases m,
{
    if m <= 1 {
        0
    } else {
        days_before_month(y, m - 1) + month_len(y, m - 1)
    }
}

/// The number of days from 1970-01-01 to January 1 of year `y` (`y >= 1970`).
pub open spec fn days_to_year(y: int) -> int
    decreases y - 1970,
{
    if y <= 1970 {
        0
    } else {
        days_to_year(y - 1) + year_len(y - 1)
    }
}

/// Whether `(y, m, d)` is a date of the calendar.
pub open spec fn is_date(y: int, m: int, d: int) -> bool {
    1 <= m <= 12 && 1 <= d <= month_len(y, m)
}

/// The number of days from 1970-01-01 to the date `(y, m, d)`.
pub open spec fn days_since_epoch(y: int, m: int, d: int) -> int {
    days_to_year(y) + days_before_month(y, m) + d - 1
}

// ---------------------------------------------------------------------------
// Days to date, by the era / year-of-era decomposition (years start on March 1).
// ---------------------------------------------------------------------------
/// The first day, counted within a 400-year era, of year `yoe` of the era.
pub open spec fn year_start(yoe: int) -> int {
    365 * yoe + yoe / 4 - yoe / 100
}

/// The year of the era that day `doe` of the era falls in.
pub open spec fn yoe_of(doe: int) -> int {
    (doe - doe / 1460 + doe / 36524 - doe / 146096) / 365
}

/// The month, counted from March as 0, of day `doy` of a year that starts on March 1.
pub open spec fn mp_of(doy: int) -> int {
    (5 * doy + 2) / 153
}

/// The calendar date of the day `days` days after 1970-01-01.
pub open spec fn civil_from_days(days: int) -> (int, int, int) {
    let z = days + 719468;
    let era = z / 146097;
    let doe = z % 146097;
    let yoe = yoe_of(doe);
    let doy = doe - year_start(yoe);
    let mp = mp_of(doy);
    let d = doy - (153 * mp + 2) / 5 + 1;
    let m = if mp < 10 {
        mp + 3
    } else {
        mp - 9
    };
    let y = yoe + era * 400;
    (if m <= 2 {
        y + 1
    } else {
        y
    }, m, d)
}

#[verifier::rlimit(100)]
proof fn lemma_year_of_era(doe: int)
    requires
        0 <= doe <= 146096,
    ensures
        0 <= yoe_of(doe) <= 399,
        year_start(yoe_of(doe)) <= doe,
        doe - year_start(yoe_of(doe)) <= 365,
        doe - year_start(yoe_of(doe)) == 365 ==> (yoe_of(doe) + 1) % 4 == 0 && ((yoe_of(doe) + 1)
            % 100 != 0 || yoe_of(doe) == 399),
{
}

proof fn lemma_month_of_year(doy: int)
    requires
        0 <= doy <= 365,
    ensures
        0 <= mp_of(doy) <= 11,
        (153 * mp_of(doy) + 2) / 5 <= doy,
        mp_of(doy) < 11 ==> doy - (153 * mp_of(doy) + 2) / 5 < (153 * (mp_of(doy) + 1) + 2) / 5 - (
        153 * mp_of(doy) + 2) / 5,
        mp_of(doy) == 11 ==> doy - (153 * mp_of(doy) + 2) / 5 <= doy - 337,
{
}

proof fn lemma_days_before_month_table(y: int, m: int)
    requires
        1 <= m <= 12,
    ensures
        m >= 3 ==> days_before_month(y, m) == 59 + (if is_leap(y) {
            1int
        } else {
            0int
        }) + (153 * (m - 3) + 2) / 5,
        m == 1 ==> days_before_month(y, m) == 0,
        m == 2 ==> days_before_month(y, m) == 31,
{
    reveal_with_fuel(days_before_month, 13);
}

/// `days_to_year` in closed form.
proof fn lemma_days_to_year_closed(y: int)
    requires
        y >= 1970,
    ensures
        days_to_year(y) == 365 * y + (y - 1) / 4 - (y - 1) / 100 + (y - 1) / 400 - 719527,
    decreases y - 1970,
{
    if y > 1970 {
        lemma_days_to_year_closed(y - 1);
    }
}

/// The leap days counted up to year `y` grow by one exactly at leap years.
proof fn lemma_leap_step(y: int)
    ensures
        y / 4 - y / 100 + y / 400 == (y - 1) / 4 - (y - 1) / 100 + (y - 1) / 400 + (if is_leap(y) {
            1int
        } else {
            0int
        }),
{
}

/// March 1 of year `yoe + 400 * era`, counted from March 1 of year 0.
#[verifier::spinoff_prover]
proof fn lemma_era_start(era: int, yoe: int)
    requires
        era >= 0,
        0 <= yoe <= 399,
    ensures
        ({
            let yy = yoe + 400 * era;
            365 * yy + yy / 4 - yy / 100 + yy / 400 == 146097 * era + year_start(yoe)
        }),
{
}

/// Days on or after 1970-01-01 fall in shifted year 1969 or later, and in
/// shifted year 1969 only from January on.
proof fn lemma_epoch_year(z: int)
    requires
        z >= 719468,
    ensures
        ({
            let era = z / 146097;
            let doe = z % 146097;
            let yoe = yoe_of(doe);
            let yy = yoe + era * 400;
            &&& yy >= 1969
            &&& yy == 1969 ==> mp_of(doe - year_start(yoe)) >= 10
        }),
{
    let era = z / 146097;
    let doe = z % 146097;
    lemma_year_of_era(doe);
    let yoe = yoe_of(doe);
    if era == 4 {
        assert(doe >= 135080);
        if yoe <= 368 {
            assert(year_start(yoe) <= 134409);
        }
        assert(yoe >= 369);
        if yoe == 369 {
            assert(doe - year_start(yoe) >= 306);
        }
    }
}

/// The day count of the date that the era decomposition of `z` yields.
proof fn lemma_decomposed_day_count(
    z: int,
    era: int,
    doe: int,
    yoe: int,
    mp: int,
    y: int,
    m: int,
    d: int,
)
    requires
        era >= 0,
        0 <= doe <= 146096,
        z == 146097 * era + doe,
        0 <= yoe <= 399,
        year_start(yoe) <= doe,
        0 <= mp <= 11,
        (153 * mp + 2) / 5 <= doe - year_start(yoe),
        d == doe - year_start(yoe) - (153 * mp + 2) / 5 + 1,
        m == (if mp < 10 {
            mp + 3
        } else {
            mp - 9
        }),
        y == (if m <= 2 {
            yoe + 400 * era + 1
        } else {
            yoe + 400 * era
        }),
        y >= 1970,
    ensures
        days_since_epoch(y, m, d) == z - 719468,
{
    let yy = yoe + 400 * era;
    lemma_era_start(era, yoe);
    lemma_days_before_month_table(y, m);
    lemma_days_to_year_closed(y);
    if mp < 10 {
        lemma_leap_step(yy);
    }
}

/// The date that the era decomposition yields is a date of the calendar.
proof fn lemma_decomposed_is_date(era: int, yoe: int, doy: int, mp: int, y: int, m: int, d: int)
    requires
        era >= 0,
        0 <= yoe <= 399,
        0 <= doy <= 365,
        doy == 365 ==> (yoe + 1) % 4 == 0 && ((yoe + 1) % 100 != 0 || yoe == 399),
        mp == mp_of(doy),
        d == doy - (153 * mp + 2) / 5 + 1,
        m == (if mp < 10 {
            mp + 3
        } else {
            mp - 9
        }),
        y == (if m <= 2 {
            yoe + 400 * era + 1
        } else {
            yoe + 400 * era
        }),
    ensures
        is_date(y, m, d),
{
    lemma_month_of_year(doy);
    let yy = yoe + 400 * era;
    assert(is_leap(yy + 1) == is_leap(yoe + 1)) by {
        assert((yy + 1) % 4 == (yoe + 1) % 4);
        assert((yy + 1) % 100 == (yoe + 1) % 100);
        assert((yy + 1) % 400 == (yoe + 1) % 400);
    }
}

/// Days to date is correct: the date it gives is a date of the calendar, in
/// 1970 or later, and lies exactly `days` days after 1970-01-01.
pub proof fn law_civil_from_days_is_the_date(days: int)
    requires
        days >= 0,
    ensures
        ({
            let (y, m, d) = civil_from_days(days);
            &&& y >= 1970
            &&& is_date(y, m, d)
            &&& days_since_epoch(y, m, d) == days
        }),
{
    let z = days + 719468;
    let era = z / 146097;
    let doe = z % 146097;
    lemma_year_of_era(doe);
    let yoe = yoe_of(doe);
    let doy = doe - year_start(yoe);
    lemma_month_of_year(doy);
    let mp = mp_of(doy);
    let d = doy - (153 * mp + 2) / 5 + 1;
    let m = if mp < 10 {
        mp + 3
    } else {
        mp - 9
    };
    let y = if m <= 2 {
        yoe + era * 400 + 1
    } else {
        yoe + era * 400
    };
    assert(civil_from_days(days) == (y, m, d));
    lemma_epoch_year(z);
    assert(y >= 1970);
    lemma_decomposed_is_date(era, yoe, doy, mp, y, m, d);
    lemma_decomposed_day_count(z, era, doe, yoe, mp, y, m, d);
}

// ---------------------------------------------------------------------------
// The text.
// ---------------------------------------------------------------------------
/// The decimal digit of `d` (0 to 9).
pub open spec fn digit(d: int) -> char {
    (('0' as u32) + d) as char
}

/// The decimal digits of `n`, without leading zeros ("0" for zero).
pub open spec fn decimal(n: nat) -> Seq<char>
    decreases n,
{
    if n < 10 {
        seq![digit(n as int)]
    } else {
        decimal(n / 10).push(digit((n % 10) as int))
    }
}

/// The decimal digits of `n`, with leading zeros up to `width` characters.
pub open spec fn padded(n: nat, width: nat) -> Seq<char> {
    let ds = decimal(n);
    if ds.len() < width {
        Seq::new((width - ds.len()) as nat, |i: int| '0') + ds
    } else {
        ds
    }
}

/// `YYYY-MM-DDTHH:MM:SSZ` for the instant `secs` seconds after 1970-01-01T00:00:00Z.
pub open spec fn iso_text(secs: nat) -> Seq<char> {
    let (y, m, d) = civil_from_days((secs / 86400) as int);
    let rem = secs % 86400;
    padded(y as nat, 4) + seq!['-'] + padded(m as nat, 2) + seq!['-'] + padded(d as nat, 2)
        + seq!['T'] + padded(rem / 3600, 2) + seq![':'] + padded((rem % 3600) / 60, 2) + seq![':']
        + padded(rem % 60, 2) + seq!['Z']
}

/// The current Unix time in whole seconds; 0 when the clock reads before 1970
/// (`SystemTime::now` and `duration_since(UNIX_EPOCH)`).
///
/// Trusted: nothing is stated of the reading.
#[verifier::external_body]
pub fn epoch_secs() -> u64 {
    match std::time::SystemTime::now().duration_since(std::time::UNIX_EPOCH) {
        Ok(d) => d.as_secs(),
        Err(_) => 0,
    }
}

/// The decimal text of a number has a digit at least, and padding it to one
/// character changes nothing.
pub proof fn lemma_decimal_nonempty(n: nat)
    ensures
        decimal(n).len() >= 1,
        padded(n, 1) == decimal(n),
    decreases n,
{
    if n >= 10 {
        lemma_decimal_nonempty(n / 10);
    }
}

fn digit_char(d: u64) -> (c: char)
    requires
        d < 10,
    ensures
        c == digit(d as int),
{
    let b = (d as u8) + 48;
    b as char
}

/// Appends the decimal digits of `n`, zero-padded to `width`, to `out`.
pub fn push_padded(out: &mut Vec<char>, n: u64, width: usize)
    ensures
        final(out)@ == old(out)@ + padded(n as nat, width as nat),
{
    let mut rev: Vec<char> = Vec::new();
    let mut k = n;
    if n == 0 {
        rev.push('0');
        assert(decimal(0) == seq!['0']);
        assert(rev@.reverse() =~= seq!['0']);
    } else {
        // `rev` holds the low digits of `n`, last digit first; `k` the rest.
        while k > 0
            invariant
                k <= n,
                k > 0 ==> decimal(n as nat) == decimal(k as nat) + rev@.reverse(),
                k == 0 ==> decimal(n as nat) == rev@.reverse(),
            decreases k,
        {
            let d = k % 10;
            let c = digit_char(d);
            let ghost before = rev@;
            rev.push(c);
            assert(rev@.reverse() =~= seq![c] + before.reverse());
            proof {
                if k >= 10 {
                    assert(decimal(k as nat) == decimal((k / 10) as nat).push(digit((k % 10) as int)));
                    assert(decimal((k / 10) as nat).push(c) + before.reverse() =~= decimal(
                        (k / 10) as nat,
                    ) + rev@.reverse());
                } else {
                    assert(decimal(k as nat) == seq![digit(k as int)]);
                    assert(seq![c] + before.reverse() =~= rev@.reverse());
                }
            }
            k = k / 10;
        }
    }
    let ghost ds = decimal(n as nat);
    assert(ds == rev@.reverse());
    let len = rev.len();
    let mut z: usize = len;
    while z < width
        invariant
            len == rev@.len(),
            len <= z,
            z <= width || z == len,
            out@ == old(out)@ + Seq::new((z - len) as nat, |i: int| '0'),
        decreases width - z,
    {
        out.push('0');
        z = z + 1;
        assert(out@ =~= old(out)@ + Seq::new((z - len) as nat, |i: int| '0'));
    }
    let ghost mid = out@;
    let mut i: usize = len;
    while i > 0
        invariant
            i <= len,
            len == rev@.len(),
            out@ == mid + rev@.reverse().take((len - i) as int),
        decreases i,
    {
        i = i - 1;
        out.push(rev[i]);
        assert(rev@.reverse().take((len - i) as int) =~= rev@.reverse().take((len - i - 1) as int).push(
            rev@[i as int],
        ));
    }
    assert(rev@.reverse().take(len as int) =~= rev@.reverse());
    if len < width {
        assert(mid == old(out)@ + Seq::new((width - len) as nat, |i: int| '0'));
        assert(out@ =~= old(out)@ + padded(n as nat, width as nat));
    } else {
        assert(out@ =~= old(out)@ + padded(n as nat, width as nat));
    }
}

/// Unix seconds to ISO-8601 UTC text, `YYYY-MM-DDTHH:MM:SSZ` (years before
/// 10000 take four digits, later ones as many as they need).
pub fn epoch_to_iso(secs: u64) -> (r: String)
    ensures
        r@ == iso_text(secs as nat),
{
    let days = secs / 86400;
    let rem = secs % 86400;
    let h = rem / 3600;
    let mi = (rem % 3600) / 60;
    let s = rem % 60;
    let z = days + 719468;
    let era = z / 146097;
    let doe = z - era * 146097;
    proof {
        lemma_year_of_era(doe as int);
    }
    let yoe = (doe - doe / 1460 + doe / 36524 - doe / 146096) / 365;
    let y = yoe + era * 400;
    let doy = doe - (365 * yoe + yoe / 4 - yoe / 100);
    proof {
        lemma_month_of_year(doy as int);
    }
    let mp = (5 * doy + 2) / 153;
    let d = doy - (153 * mp + 2) / 5 + 1;
    let m = if mp < 10 {
        mp + 3
    } else {
        mp - 9
    };
    let y = if m <= 2 {
        y + 1
    } else {
        y
    };
    assert(civil_from_days(days as int) == (y as int, m as int, d as int));
    let mut out: Vec<char> = Vec::new();
    push_padded(&mut out, y, 4);
    out.push('-');
    push_padded(&mut out, m, 2);
    out.push('-');
    push_padded(&mut out, d, 2);
    out.push('T');
    push_padded(&mut out, h, 2);
    out.push(':');
    push_padded(&mut out, mi, 2);
    out.push(':');
    push_padded(&mut out, s, 2);
    out.push('Z');
    assert(out@ =~= iso_text(secs as nat));
    crate::text::string_from_chars(&out)
}

/// The value of a decimal digit character.
pub open spec fn digit_value(c: char) -> int {
    c as int - '0' as int
}

/// Two-digit padding of a number below 100 is its tens and units digits.
proof fn lemma_padded_two(n: nat)
    requires
        n < 100,
    ensures
        padded(n, 2) == seq![digit((n / 10) as int), digit((n % 10) as int)],
{
    if n < 10 {
        assert(decimal(n) == seq![digit(n as int)]);
        assert(Seq::new(1, |i: int| '0') + seq![digit(n as int)] =~= seq![
            digit((n / 10) as int),
            digit((n % 10) as int),
        ]);
    } else {
        assert(decimal(n / 10) == seq![digit((n / 10) as int)]);
        assert(decimal(n) =~= seq![digit((n / 10) as int), digit((n % 10) as int)]);
    }
}

/// The time of day in the ISO text is that of `secs`: the text ends in
/// `THH:MM:SSZ` with six decimal digits, whose hour, minute and second are
/// below 24, 60 and 60 and add up to the seconds of `secs` since midnight.
pub proof fn law_iso_time_of_day(secs: nat)
    ensures
        ({
            let t = iso_text(secs);
            let n = t.len() as int;
            let hh = digit_value(t[n - 9]) * 10 + digit_value(t[n - 8]);
            let mm = digit_value(t[n - 6]) * 10 + digit_value(t[n - 5]);
            let ss = digit_value(t[n - 3]) * 10 + digit_value(t[n - 2]);
            &&& n >= 10
            &&& t[n - 10] == 'T' && t[n - 7] == ':' && t[n - 4] == ':' && t[n - 1] == 'Z'
            &&& forall|k: int|
                #![trigger t[k]]
                (k == n - 9 || k == n - 8 || k == n - 6 || k == n - 5 || k == n - 3 || k == n - 2)
                    ==> '0' <= t[k] <= '9'
            &&& 0 <= hh < 24 && 0 <= mm < 60 && 0 <= ss < 60
            &&& hh * 3600 + mm * 60 + ss == secs % 86400
        }),
{
    let (y, m, d) = civil_from_days((secs / 86400) as int);
    let rem = secs % 86400;
    let h = rem / 3600;
    let mi = (rem % 3600) / 60;
    let s = rem % 60;
    lemma_padded_two(h);
    lemma_padded_two(mi);
    lemma_padded_two(s);
    let date = padded(y as nat, 4) + seq!['-'] + padded(m as nat, 2) + seq!['-'] + padded(
        d as nat,
        2,
    );
    let tail = seq![
        'T',
        digit((h / 10) as int),
        digit((h % 10) as int),
        ':',
        digit((mi / 10) as int),
        digit((mi % 10) as int),
        ':',
        digit((s / 10) as int),
        digit((s % 10) as int),
        'Z',
    ];
    let t = iso_text(secs);
    assert(t =~= date + tail);
    let n = t.len() as int;
    assert(t.subrange(n - 10, n) =~= tail);
    assert forall|k: int| 0 <= k < 10 implies #[trigger] t[n - 10 + k] == tail[k] by {
        assert(t.subrange(n - 10, n)[k] == t[n - 10 + k]);
    }
    assert(t[n - 9] == tail[1]);
    assert(t[n - 8] == tail[2]);
    assert(t[n - 6] == tail[4]);
    assert(t[n - 5] == tail[5]);
    assert(t[n - 3] == tail[7]);
    assert(t[n - 2] == tail[8]);
    assert(t[n - 10] == tail[0]);
    assert(t[n - 7] == tail[3]);
    assert(t[n - 4] == tail[6]);
    assert(t[n - 1] == tail[9]);
    assert(h < 24);
    assert(h * 3600 + mi * 60 + s == rem) by (nonlinear_arith)
        requires
            h == rem / 3600,
            mi == (rem % 3600) / 60,
            s == rem % 60,
            rem < 86400,
    ;
}

/// A run of zeros reads as zero.
proof fn lemma_zeros_value(k: nat)
    ensures
        digits_value(Seq::new(k, |i: int| '0')) == 0,
    decreases k,
{
    if k > 0 {
        assert(Seq::new(k, |i: int| '0').drop_last() =~= Seq::new((k - 1) as nat, |i: int| '0'));
        lemma_zeros_value((k - 1) as nat);
    }
}

/// Digits that read as zero, put before a text, do not change its value.
proof fn lemma_value_after_zero_prefix(a: Seq<char>, b: Seq<char>)
    requires
        digits_value(a) == 0,
    ensures
        digits_value(a + b) == digits_value(b),
    decreases b.len(),
{
    if b.len() == 0 {
        assert(a + b =~= a);
    } else {
        assert((a + b).drop_last() =~= a + b.drop_last());
        assert((a + b).last() == b.last());
        lemma_value_after_zero_prefix(a, b.drop_last());
    }
}

/// The decimal text of `n` is made of digits and reads back as `n`.
proof fn lemma_decimal_value(n: nat)
    ensures
        digits_value(decimal(n)) == n,
        forall|i: int| 0 <= i < decimal(n).len() ==> is_digit(#[trigger] decimal(n)[i]),
    decreases n,
{
    if n >= 10 {
        lemma_decimal_value(n / 10);
        let p = decimal(n / 10);
        assert(decimal(n).drop_last() =~= p);
        assert(decimal(n).last() == digit((n % 10) as int));
        assert(digit((n % 10) as int) as int - '0' as int == n % 10);
        assert(n == (n / 10) * 10 + n % 10);
        assert(digits_value(decimal(n)) == digits_value(p) * 10 + (decimal(n).last() as int
            - '0' as int));
        assert forall|i: int| 0 <= i < decimal(n).len() implies is_digit(#[trigger] decimal(n)[i]) by {
            if i < p.len() {
                assert(decimal(n)[i] == p[i]);
            }
        }
    } else {
        assert(decimal(n).drop_last() =~= Seq::<char>::empty());
        assert(decimal(n).last() == digit(n as int));
        assert(digit(n as int) as int - '0' as int == n);
        assert(digits_value(decimal(n)) == digits_value(Seq::<char>::empty()) * 10 + (
        decimal(n).last() as int - '0' as int));
    }
}

/// A zero-padded decimal text is at least as long as its width, made of
/// digits, and reads back as the number.
proof fn lemma_padded_value(n: nat, w: nat)
    ensures
        padded(n, w).len() >= w,
        all_digits(padded(n, w)),
        digits_value(padded(n, w)) == n,
{
    lemma_decimal_value(n);
    lemma_decimal_nonempty(n);
    let ds = decimal(n);
    if ds.len() < w {
        let z = Seq::new((w - ds.len()) as nat, |i: int| '0');
        lemma_zeros_value((w - ds.len()) as nat);
        lemma_value_after_zero_prefix(z, ds);
        assert forall|i: int| 0 <= i < padded(n, w).len() implies is_digit(#[trigger] padded(n, w)[i]) by {
            if i >= z.len() {
                assert(padded(n, w)[i] == ds[i - z.len()]);
            }
        }
    }
}

/// The date in the ISO text is that of `secs`: the text starts with a year of
/// four digits or more, then `-MM-DD`; these name a date of the calendar, in
/// 1970 or later, that lies `secs / 86400` days after 1970-01-01.
#[verifier::spinoff_prover]
#[verifier::rlimit(60)]
pub proof fn law_iso_date(secs: nat)
    ensures
        ({
            let t = iso_text(secs);
            let n = t.len() as int;
            let year = t.take(n - 16);
            let mo = digit_value(t[n - 15]) * 10 + digit_value(t[n - 14]);
            let da = digit_value(t[n - 12]) * 10 + digit_value(t[n - 11]);
            &&& n >= 20
            &&& t[n - 16] == '-' && t[n - 13] == '-'
            &&& all_digits(year) && year.len() >= 4
            &&& forall|k: int|
                #![trigger t[k]]
                (k == n - 15 || k == n - 14 || k == n - 12 || k == n - 11) ==> is_digit(t[k])
            &&& digits_value(year) >= 1970
            &&& is_date(digits_value(year), mo, da)
            &&& days_since_epoch(digits_value(year), mo, da) == secs / 86400
        }),
{
    let days = (secs / 86400) as int;
    law_civil_from_days_is_the_date(days);
    let (y, m, d) = civil_from_days(days);
    let rem = secs % 86400;
    let h = rem / 3600;
    let mi = (rem % 3600) / 60;
    let s = rem % 60;
    lemma_padded_two(m as nat);
    lemma_padded_two(d as nat);
    lemma_padded_two(h);
    lemma_padded_two(mi);
    lemma_padded_two(s);
    lemma_padded_value(y as nat, 4);
    let py = padded(y as nat, 4);
    let mid = seq![
        '-',
        digit(((m as nat) / 10) as int),
        digit(((m as nat) % 10) as int),
        '-',
        digit(((d as nat) / 10) as int),
        digit(((d as nat) % 10) as int),
    ];
    let tail = padded(h, 2) + seq![':'] + padded(mi, 2) + seq![':'] + padded(s, 2) + seq!['Z'];
    let t = iso_text(secs);
    assert(t =~= py + mid + (seq!['T'] + tail));
    let l = py.len() as int;
    let n = t.len() as int;
    assert(n == l + 16);
    assert(t.take(n - 16) =~= py);
    assert forall|k: int| 0 <= k < 6 implies #[trigger] t[l + k] == mid[k] by {}
    assert(t[l] == mid[0]);
    assert(t[l + 1] == mid[1]);
    assert(t[l + 2] == mid[2]);
    assert(t[l + 3] == mid[3]);
    assert(t[l + 4] == mid[4]);
    assert(t[l + 5] == mid[5]);
}

} // verus!
