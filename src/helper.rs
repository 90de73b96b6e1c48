//! Date and number formatting for article listings, in English and Chinese.

use chrono::{Datelike, Timelike};
use vstd::prelude::*;

verus! {

/// The decimal digit `d` (below ten) as a one-character string.
pub open spec fn digit_text(d: nat) -> Seq<char> {
    if d == 0 { "0"@ }
    else if d == 1 { "1"@ }
    else if d == 2 { "2"@ }
    else if d == 3 { "3"@ }
    else if d == 4 { "4"@ }
    else if d == 5 { "5"@ }
    else if d == 6 { "6"@ }
    else if d == 7 { "7"@ }
    else if d == 8 { "8"@ }
    else { "9"@ }
}

/// The decimal notation of `n`, without leading zeros.
pub open spec fn decimal(n: nat) -> Seq<char>
    decreases n,
{
    if n < 10 { digit_text(n) } else { decimal(n / 10) + digit_text(n % 10) }
}

/// The Chinese numeral character for the digit `d` (below ten).
pub open spec fn cn_digit(d: nat) -> Seq<char> {
    if d == 0 { "零"@ }
    else if d == 1 { "一"@ }
    else if d == 2 { "二"@ }
    else if d == 3 { "三"@ }
    else if d == 4 { "四"@ }
    else if d == 5 { "五"@ }
    else if d == 6 { "六"@ }
    else if d == 7 { "七"@ }
    else if d == 8 { "八"@ }
    else { "九"@ }
}

/// Each decimal digit of `n` spelled as its Chinese numeral character.
pub open spec fn cn_digits(n: nat) -> Seq<char>
    decreases n,
{
    if n < 10 { cn_digit(n) } else { cn_digits(n / 10) + cn_digit(n % 10) }
}

/// The English ordinal suffix of a day of the month.
pub open spec fn ordinal_text(day: nat) -> Seq<char> {
    if day == 1 || day == 21 || day == 31 { "st"@ }
    else if day == 2 || day == 22 { "nd"@ }
    else if day == 3 || day == 23 { "rd"@ }
    else { "th"@ }
}

/// Chinese spelling of a number: the usual two-digit numerals up to 99,
/// decimal digits beyond.
pub open spec fn chinese_number(n: nat) -> Seq<char> {
    if n < 10 { cn_digit(n) }
    else if n == 10 { "十"@ }
    else if n < 20 { "十"@ + cn_digit((n - 10) as nat) }
    else if n < 100 {
        cn_digit(n / 10) + "十"@ + (if n % 10 == 0 { Seq::empty() } else { cn_digit(n % 10) })
    }
    else { decimal(n) }
}

/// The part of the day that an hour falls in, in Chinese.
pub open spec fn day_period(hour: nat) -> Seq<char> {
    if hour >= 23 { "深夜"@ }
    else if hour <= 7 { "凌晨"@ }
    else if hour <= 12 { "上午"@ }
    else if hour <= 15 { "中午"@ }
    else if hour <= 18 { "下午"@ }
    else if hour <= 20 { "傍晚"@ }
    else { "晚上"@ }
}

/// The hour as read on a twelve-hour dial (hours past noon lose twelve).
pub open spec fn dial_hour(hour: nat) -> nat {
    if hour > 12 { (hour - 12) as nat } else { hour }
}

/// Chinese time of day: period, hour and minute.
pub open spec fn chinese_clock(hour: nat, minute: nat) -> Seq<char> {
    day_period(hour) + chinese_number(dial_hour(hour)) + "点"@ + chinese_number(minute) + "分"@
}

fn digit_str(d: u64) -> (r: &'static str)
    requires
        d < 10,
    ensures
        r@ == digit_text(d as nat),
{
    if d == 0 { "0" }
    else if d == 1 { "1" }
    else if d == 2 { "2" }
    else if d == 3 { "3" }
    else if d == 4 { "4" }
    else if d == 5 { "5" }
    else if d == 6 { "6" }
    else if d == 7 { "7" }
    else if d == 8 { "8" }
    else { "9" }
}

fn cn_digit_str(d: u64) -> (r: &'static str)
    requires
        d < 10,
    ensures
        r@ == cn_digit(d as nat),
{
    if d == 0 { "零" }
    else if d == 1 { "一" }
    else if d == 2 { "二" }
    else if d == 3 { "三" }
    else if d == 4 { "四" }
    else if d == 5 { "五" }
    else if d == 6 { "六" }
    else if d == 7 { "七" }
    else if d == 8 { "八" }
    else { "九" }
}

/// Appends the decimal notation of `n`.
pub fn push_decimal(out: &mut String, n: u64)
    ensures
        final(out)@ == old(out)@ + decimal(n as nat),
    decreases n,
{
    if n >= 10 {
        push_decimal(out, n / 10);
    }
    out.append(digit_str(n % 10));
    proof {
        assert(old(out)@ + decimal(n as nat) =~= old(out)@ + (if n >= 10 { decimal((n / 10) as nat) } else { Seq::empty() }) + digit_text((n % 10) as nat));
    }
}

/// Appends the Chinese numeral character of each decimal digit of `n`.
fn push_cn_digits(out: &mut String, n: u64)
    ensures
        final(out)@ == old(out)@ + cn_digits(n as nat),
    decreases n,
{
    if n >= 10 {
        push_cn_digits(out, n / 10);
    }
    out.append(cn_digit_str(n % 10));
    proof {
        assert(old(out)@ + cn_digits(n as nat) =~= old(out)@ + (if n >= 10 { cn_digits((n / 10) as nat) } else { Seq::empty() }) + cn_digit((n % 10) as nat));
    }
}

/// The day of the month followed by its English ordinal suffix ("1st", "22nd").
pub fn ordinal_suffix(day: u32) -> (r: String)
    ensures
        r@ == decimal(day as nat) + ordinal_text(day as nat),
{
    let mut s = String::new();
    push_decimal(&mut s, day as u64);
    if day == 1 || day == 21 || day == 31 {
        s.append("st");
    } else if day == 2 || day == 22 {
        s.append("nd");
    } else if day == 3 || day == 23 {
        s.append("rd");
    } else {
        s.append("th");
    }
    s
}

/// A year written digit by digit in Chinese numerals (2025 is 二零二五).
pub fn chinese_year(year: i32) -> (r: String)
    requires
        year >= 0,
    ensures
        r@ == cn_digits(year as nat),
{
    let mut s = String::new();
    push_cn_digits(&mut s, year as u64);
    s
}

/// A number in Chinese: the usual numerals from 0 to 99, decimal digits above.
pub fn number_to_chinese(num: u32) -> (r: String)
    ensures
        r@ == chinese_number(num as nat),
{
    let mut s = String::new();
    if num < 10 {
        s.append(cn_digit_str(num as u64));
    } else if num == 10 {
        s.append("十");
    } else if num < 20 {
        s.append("十");
        s.append(cn_digit_str((num - 10) as u64));
    } else if num < 100 {
        s.append(cn_digit_str((num / 10) as u64));
        s.append("十");
        if num % 10 != 0 {
            s.append(cn_digit_str((num % 10) as u64));
        }
        proof {
            assert(s@ =~= chinese_number(num as nat));
        }
    } else {
        push_decimal(&mut s, num as u64);
    }
    s
}

/// A time of day in Chinese, such as 下午三点二十分 for 15:20.
pub fn chinese_time(hour: u32, minute: u32) -> (r: String)
    ensures
        r@ == chinese_clock(hour as nat, minute as nat),
{
    let period = if hour >= 23 {
        "深夜"
    } else if hour <= 7 {
        "凌晨"
    } else if hour <= 12 {
        "上午"
    } else if hour <= 15 {
        "中午"
    } else if hour <= 18 {
        "下午"
    } else if hour <= 20 {
        "傍晚"
    } else {
        "晚上"
    };
    let h = if hour > 12 { hour - 12 } else { hour };
    let mut s = String::from_str(period);
    let hs = number_to_chinese(h);
    s.append(hs.as_str());
    s.append("点");
    let ms = number_to_chinese(minute);
    s.append(ms.as_str());
    s.append("分");
    s
}


/// A day of the week.
#[derive(Clone, Copy, Debug, PartialEq, Eq)]
pub enum Weekday {
    Mon,
    Tue,
    Wed,
    Thu,
    Fri,
    Sat,
    Sun,
}

/// The Chinese name of a weekday.
pub open spec fn weekday_cn(w: Weekday) -> Seq<char> {
    match w {
        Weekday::Mon => "星期一"@,
        Weekday::Tue => "星期二"@,
        Weekday::Wed => "星期三"@,
        Weekday::Thu => "星期四"@,
        Weekday::Fri => "星期五"@,
        Weekday::Sat => "星期六"@,
        Weekday::Sun => "星期日"@,
    }
}

/// The full English name of a weekday.
pub open spec fn weekday_en(w: Weekday) -> Seq<char> {
    match w {
        Weekday::Mon => "Monday"@,
        Weekday::Tue => "Tuesday"@,
        Weekday::Wed => "Wednesday"@,
        Weekday::Thu => "Thursday"@,
        Weekday::Fri => "Friday"@,
        Weekday::Sat => "Saturday"@,
        Weekday::Sun => "Sunday"@,
    }
}

/// The full English name of month `m` (1 to 12).
pub open spec fn month_en(m: nat) -> Seq<char> {
    if m == 1 { "January"@ }
    else if m == 2 { "February"@ }
    else if m == 3 { "March"@ }
    else if m == 4 { "April"@ }
    else if m == 5 { "May"@ }
    else if m == 6 { "June"@ }
    else if m == 7 { "July"@ }
    else if m == 8 { "August"@ }
    else if m == 9 { "September"@ }
    else if m == 10 { "October"@ }
    else if m == 11 { "November"@ }
    else { "December"@ }
}

/// `n` written with at least `width` digits, padded with leading zeros.
pub open spec fn padded(n: nat, width: nat) -> Seq<char> {
    if decimal(n).len() >= width {
        decimal(n)
    } else {
        Seq::new((width - decimal(n).len()) as nat, |i: int| '0') + decimal(n)
    }
}

/// A local date and time, broken into the fields that the formats show.
#[derive(Clone, Copy, Debug, PartialEq, Eq)]
pub struct DateTimeParts {
    pub year: i32,
    pub month: u32,
    pub day: u32,
    pub weekday: Weekday,
    pub hour: u32,
    pub minute: u32,
}

impl DateTimeParts {
    /// The fields name a real calendar position.
    pub open spec fn wf(&self) -> bool {
        &&& 0 <= self.year <= 9999
        &&& 1 <= self.month <= 12
        &&& 1 <= self.day <= 31
        &&& self.hour < 24
        &&& self.minute < 60
    }
}

/// English form: "Sunday, 2025, March 2nd. 03:07 PM".
pub open spec fn english_date(p: DateTimeParts) -> Seq<char> {
    let h12: nat = if p.hour % 12 == 0 { 12 } else { (p.hour % 12) as nat };
    weekday_en(p.weekday) + ", "@ + padded(p.year as nat, 4) + ", "@ + month_en(p.month as nat)
        + " "@ + decimal(p.day as nat) + ordinal_text(p.day as nat) + ". "@ + padded(h12, 2) + ":"@
        + padded(p.minute as nat, 2) + " "@ + (if p.hour < 12 { "AM"@ } else { "PM"@ })
}

/// Chinese form: year, month and day in numerals, then weekday and time of day.
pub open spec fn chinese_date(p: DateTimeParts) -> Seq<char> {
    cn_digits(p.year as nat) + "年"@ + chinese_number(p.month as nat) + "月"@ + chinese_number(
        p.day as nat,
    ) + "日，"@ + weekday_cn(p.weekday) + "，"@ + chinese_clock(p.hour as nat, p.minute as nat)
}

/// The Chinese name of a weekday (星期一 for Monday).
pub fn chinese_weekday(weekday: Weekday) -> (r: String)
    ensures
        r@ == weekday_cn(weekday),
{
    let s = match weekday {
        Weekday::Mon => "星期一",
        Weekday::Tue => "星期二",
        Weekday::Wed => "星期三",
        Weekday::Thu => "星期四",
        Weekday::Fri => "星期五",
        Weekday::Sat => "星期六",
        Weekday::Sun => "星期日",
    };
    String::from_str(s)
}

fn english_weekday(weekday: Weekday) -> (r: &'static str)
    ensures
        r@ == weekday_en(weekday),
{
    match weekday {
        Weekday::Mon => "Monday",
        Weekday::Tue => "Tuesday",
        Weekday::Wed => "Wednesday",
        Weekday::Thu => "Thursday",
        Weekday::Fri => "Friday",
        Weekday::Sat => "Saturday",
        Weekday::Sun => "Sunday",
    }
}

fn english_month(m: u32) -> (r: &'static str)
    ensures
        r@ == month_en(m as nat),
{
    if m == 1 { "January" }
    else if m == 2 { "February" }
    else if m == 3 { "March" }
    else if m == 4 { "April" }
    else if m == 5 { "May" }
    else if m == 6 { "June" }
    else if m == 7 { "July" }
    else if m == 8 { "August" }
    else if m == 9 { "September" }
    else if m == 10 { "October" }
    else if m == 11 { "November" }
    else { "December" }
}

/// Appends `n` padded with leading zeros to `width` digits.
fn push_padded(out: &mut String, n: u64, width: u64)
    requires
        width <= 4,
    ensures
        final(out)@ == old(out)@ + padded(n as nat, width as nat),
{
    let mut digits = String::new();
    push_decimal(&mut digits, n);
    let len = digits.as_str().unicode_len();
    if (len as u64) < width {
        let mut k: u64 = len as u64;
        while k < width
            invariant
                len as nat == decimal(n as nat).len(),
                len <= k <= width,
                out@ == old(out)@ + Seq::new((k - len) as nat, |i: int| '0'),
            decreases width - k,
        {
            out.append("0");
            proof {
                reveal_strlit("0");
                assert(old(out)@ + Seq::new((k + 1 - len) as nat, |i: int| '0') =~= old(out)@
                    + Seq::new((k - len) as nat, |i: int| '0') + "0"@);
            }
            k = k + 1;
        }
    }
    out.append(digits.as_str());
    proof {
        assert(out@ =~= old(out)@ + padded(n as nat, width as nat));
    }
}

/// Formats a date and time in English and in Chinese, for article listings.
pub fn format_date_parts(parts: &DateTimeParts) -> (r: (String, String))
    requires
        parts.wf(),
    ensures
        r.0@ == english_date(*parts),
        r.1@ == chinese_date(*parts),
{
    let mut en = String::from_str(english_weekday(parts.weekday));
    en.append(", ");
    push_padded(&mut en, parts.year as u64, 4);
    en.append(", ");
    en.append(english_month(parts.month));
    en.append(" ");
    let day = ordinal_suffix(parts.day);
    en.append(day.as_str());
    en.append(". ");
    let h12: u32 = if parts.hour % 12 == 0 { 12 } else { parts.hour % 12 };
    push_padded(&mut en, h12 as u64, 2);
    en.append(":");
    push_padded(&mut en, parts.minute as u64, 2);
    en.append(" ");
    if parts.hour < 12 {
        en.append("AM");
    } else {
        en.append("PM");
    }
    let mut cn = chinese_year(parts.year);
    cn.append("年");
    let month = number_to_chinese(parts.month);
    cn.append(month.as_str());
    cn.append("月");
    let d = number_to_chinese(parts.day);
    cn.append(d.as_str());
    cn.append("日，");
    let w = chinese_weekday(parts.weekday);
    cn.append(w.as_str());
    cn.append("，");
    let t = chinese_time(parts.hour, parts.minute);
    cn.append(t.as_str());
    proof {
        assert(en@ =~= english_date(*parts));
        assert(cn@ =~= chinese_date(*parts));
    }
    (en, cn)
}


/// Relies on chrono's `From<SystemTime>` for `DateTime<Local>` and its
/// `Datelike` and `Timelike` accessors: the calendar fields of a time in the
/// machine's time zone. chrono documents month 1 to 12, day 1 to 31, weekday
/// numbers 0 (Monday) to 6, hour 0 to 23 and minute 0 to 59.
#[verifier::external_body]
fn local_fields(nanos: u64) -> (r: (i32, u32, u32, u32, u32, u32))
    ensures
        1 <= r.1 <= 12,
        1 <= r.2 <= 31,
        r.3 < 7,
        r.4 < 24,
        r.5 < 60,
{
    let t = std::time::UNIX_EPOCH + std::time::Duration::from_nanos(nanos);
    let dt = chrono::DateTime::<chrono::Local>::from(t);
    (dt.year(), dt.month(), dt.day(), dt.weekday().num_days_from_monday(), dt.hour(), dt.minute())
}

/// The weekday numbered from 0 for Monday.
pub open spec fn weekday_at(n: nat) -> Weekday {
    if n == 0 { Weekday::Mon }
    else if n == 1 { Weekday::Tue }
    else if n == 2 { Weekday::Wed }
    else if n == 3 { Weekday::Thu }
    else if n == 4 { Weekday::Fri }
    else if n == 5 { Weekday::Sat }
    else { Weekday::Sun }
}

/// The weekday numbered from 0 for Monday.
pub fn weekday_from_monday(n: u32) -> (r: Weekday)
    requires
        n < 7,
    ensures
        r == weekday_at(n as nat),
{
    if n == 0 { Weekday::Mon }
    else if n == 1 { Weekday::Tue }
    else if n == 2 { Weekday::Wed }
    else if n == 3 { Weekday::Thu }
    else if n == 4 { Weekday::Fri }
    else if n == 5 { Weekday::Sat }
    else { Weekday::Sun }
}

/// Formats calendar fields (weekday numbered from 0 for Monday) in English
/// and in Chinese; `None` exactly when the year lies outside 0 to 9999, which
/// the formats cannot write.
pub fn format_calendar_fields(year: i32, month: u32, day: u32, weekday: u32, hour: u32, minute: u32) -> (r: Option<(String, String)>)
    requires
        1 <= month <= 12,
        1 <= day <= 31,
        weekday < 7,
        hour < 24,
        minute < 60,
    ensures
        r is None <==> !(0 <= year <= 9999),
        r matches Some(p) ==> ({
            let d = DateTimeParts { year, month, day, weekday: weekday_at(weekday as nat), hour, minute };
            p.0@ == english_date(d) && p.1@ == chinese_date(d)
        }),
{
    if year < 0 || year > 9999 {
        return None;
    }
    let parts = DateTimeParts { year, month, day, weekday: weekday_from_monday(weekday), hour, minute };
    Some(format_date_parts(&parts))
}

/// Formats a time, in nanoseconds since the Unix epoch, as seen in the
/// machine's time zone, in English and in Chinese. `None` when the local year
/// falls outside 0 to 9999, which the formats cannot write.
pub fn format_system_time(nanos: u64) -> (r: Option<(String, String)>)
    ensures
        r matches Some(p) ==> exists|d: DateTimeParts|
            d.wf() && #[trigger] english_date(d) == p.0@ && chinese_date(d) == p.1@,
{
    let (year, month, day, weekday, hour, minute) = local_fields(nanos);
    let r = format_calendar_fields(year, month, day, weekday, hour, minute);
    proof {
        if r is Some {
            let d = DateTimeParts { year, month, day, weekday: weekday_at(weekday as nat), hour, minute };
            assert(d.wf());
        }
    }
    r
}

} // verus!
