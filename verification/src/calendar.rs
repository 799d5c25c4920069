//! Proleptic Gregorian calendar arithmetic and the state of the
//! scratch-pad calendar.
use crate::text::spaces;
use crate::git::dec_repr;
use chrono::Datelike;
use vstd::prelude::*;

verus! {

/// Whether `year` is a leap year in the proleptic Gregorian calendar.
pub open spec fn spec_is_leap_year(year: int) -> bool {
    year % 4 == 0 && (year % 100 != 0 || year % 400 == 0)
}

/// Number of days of `month` (1 ~ 12) in `year`.
pub open spec fn days_in_month(year: int, month: int) -> int {
    if month == 2 {
        if spec_is_leap_year(year) { 29 } else { 28 }
    } else if month == 4 || month == 6 || month == 9 || month == 11 {
        30
    } else {
        31
    }
}

/// A real calendar date: the month is 1 ~ 12 and the day exists in that month.
pub open spec fn is_valid_date(year: int, month: int, day: int) -> bool {
    &&& 1 <= month <= 12
    &&& 1 <= day <= days_in_month(year, month)
}

/// Days since 1970-01-01, computed by counting eras of 400 years
/// with years that start in March.
pub open spec fn spec_days_from_civil(year: int, month: int, day: int) -> int {
    let y = if month <= 2 { year - 1 } else { year };
    let era = y / 400;
    let yoe = y - era * 400;
    let mp = if month > 2 { month - 3 } else { month + 9 };
    let doy = (153 * mp + 2) / 5 + day - 1;
    let doe = yoe * 365 + yoe / 4 - yoe / 100 + doy;
    era * 146_097 + doe - 719_468
}

/// The date that comes right after the given one.
pub open spec fn spec_next_day(year: int, month: int, day: int) -> (int, int, int) {
    if (month == 1 || month == 3 || month == 5 || month == 7 || month == 8 || month == 10) && day == 31 {
        (year, month + 1, 1)
    } else if month == 2 && day == 28 && spec_is_leap_year(year) {
        (year, 2, 29)
    } else if month == 2 && (day == 28 || day == 29) {
        (year, 3, 1)
    } else if (month == 4 || month == 6 || month == 9 || month == 11) && day == 30 {
        (year, month + 1, 1)
    } else if month == 12 && day == 31 {
        (year + 1, 1, 1)
    } else {
        (year, month, day + 1)
    }
}

/// The date that comes right before the given one.
pub open spec fn spec_prev_day(year: int, month: int, day: int) -> (int, int, int) {
    if month == 1 && day == 1 {
        (year - 1, 12, 31)
    } else if (month == 2 || month == 4 || month == 6 || month == 8 || month == 9 || month == 11) && day == 1 {
        (year, month - 1, 31)
    } else if month == 3 && day == 1 {
        if spec_is_leap_year(year) { (year, 2, 29) } else { (year, 2, 28) }
    } else if (month == 5 || month == 7 || month == 10 || month == 12) && day == 1 {
        (year, month - 1, 30)
    } else {
        (year, month, day - 1)
    }
}

pub fn is_leap_year(year: i32) -> (r: bool)
    ensures
        r == spec_is_leap_year(year as int),
{
    year % 4 == 0 && (year % 100 != 0 || year % 400 == 0)
}

/// Days since 1970-01-01 (negative before it).
pub fn days_from_civil(year: i32, month: u8, day: u8) -> (r: i64)
    ensures
        r == spec_days_from_civil(year as int, month as int, day as int),
        -0x100_0000_0000 < r < 0x100_0000_0000,
{
    let mut y = year as i64;
    let m = month as i64;
    let d = day as i64;

    // Treat March as the first month of the year.
    if m <= 2 {
        y -= 1;
    }

    let era = match y.checked_div_euclid(400) {
        Some(e) => e,
        None => 0,
    };
    assert(-5_368_710 <= era <= 5_368_710);
    let yoe = y - era * 400;  // year of era: [0, 399]
    assert(0 <= yoe < 400);

    let mp = m + if m > 2 { -3 } else { 9 };  // March = 0, ..., February = 11
    let doy = (153 * mp + 2) / 5 + d - 1;  // day of year: [0, 365]

    let doe = yoe * 365 + yoe / 4 - yoe / 100 + doy;  // day of era

    // Days since 1970-01-01.
    era * 146_097 + doe - 719_468
}

pub fn prev_day(year: i32, month: u8, day: u8) -> (r: (i32, u8, u8))
    requires
        day >= 1,
        !(month == 1 && day == 1 && year == i32::MIN),
    ensures
        (r.0 as int, r.1 as int, r.2 as int) == spec_prev_day(year as int, month as int, day as int),
{
    if month == 1 && day == 1 {
        (year - 1, 12, 31)
    } else if (month == 2 || month == 4 || month == 6 || month == 8 || month == 9 || month == 11) && day == 1 {
        (year, month - 1, 31)
    } else if month == 3 && day == 1 && is_leap_year(year) {
        (year, 2, 29)
    } else if month == 3 && day == 1 {
        (year, 2, 28)
    } else if (month == 5 || month == 7 || month == 10 || month == 12) && day == 1 {
        (year, month - 1, 30)
    } else {
        (year, month, day - 1)
    }
}

pub fn next_day(year: i32, month: u8, day: u8) -> (r: (i32, u8, u8))
    requires
        day < 255,
        !(month == 12 && day == 31 && year == i32::MAX),
    ensures
        (r.0 as int, r.1 as int, r.2 as int) == spec_next_day(year as int, month as int, day as int),
{
    if (month == 1 || month == 3 || month == 5 || month == 7 || month == 8 || month == 10) && day == 31 {
        (year, month + 1, 1)
    } else if month == 2 && day == 28 && is_leap_year(year) {
        (year, 2, 29)
    } else if month == 2 && (day == 28 || day == 29) {
        (year, 3, 1)
    } else if (month == 4 || month == 6 || month == 9 || month == 11) && day == 30 {
        (year, month + 1, 1)
    } else if month == 12 && day == 31 {
        (year + 1, 1, 1)
    } else {
        (year, month, day + 1)
    }
}

/// Law: the day after a real date is a real date, and so is the day before it.
pub proof fn lemma_next_prev_day_valid(year: int, month: int, day: int)
    requires
        is_valid_date(year, month, day),
    ensures
        ({
            let (y, m, d) = spec_next_day(year, month, day);
            is_valid_date(y, m, d)
        }),
        ({
            let (y, m, d) = spec_prev_day(year, month, day);
            is_valid_date(y, m, d)
        }),
{
}

/// Law: stepping one day forward and one day back (in either order)
/// gives back the date one started from.
pub proof fn lemma_next_prev_day_inverse(year: int, month: int, day: int)
    requires
        is_valid_date(year, month, day),
    ensures
        ({
            let (y, m, d) = spec_next_day(year, month, day);
            spec_prev_day(y, m, d) == (year, month, day)
        }),
        ({
            let (y, m, d) = spec_prev_day(year, month, day);
            spec_next_day(y, m, d) == (year, month, day)
        }),
{
}

/// The number 1970-01-01 is given: day zero.
pub proof fn lemma_epoch_is_day_zero()
    ensures
        spec_days_from_civil(1970, 1, 1) == 0,
{
}

/// Days from the start of the 400-year era cycle to March 1st of the
/// March-based year `y`, plus the era's own offset.
spec fn march_year_start(y: int) -> int {
    let era = y / 400;
    let yoe = y - era * 400;
    era * 146_097 + yoe * 365 + yoe / 4 - yoe / 100
}

proof fn lemma_div_step(k: int, d: int)
    requires
        0 <= k,
        0 < d,
    ensures
        (k + 1) / d == k / d + (if (k + 1) % d == 0 { 1int } else { 0int }),
{
    vstd::arithmetic::div_mod::lemma_fundamental_div_mod(k, d);
    vstd::arithmetic::div_mod::lemma_fundamental_div_mod(k + 1, d);
    assert(0 <= k % d < d) by {
        vstd::arithmetic::div_mod::lemma_mod_pos_bound(k, d);
    }
    assert(0 <= (k + 1) % d < d) by {
        vstd::arithmetic::div_mod::lemma_mod_pos_bound(k + 1, d);
    }
    if (k + 1) % d == 0 {
        assert(d * ((k + 1) / d) == d * (k / d) + d) by (nonlinear_arith)
            requires
                k == d * (k / d) + k % d,
                k + 1 == d * ((k + 1) / d),
                0 <= k % d < d,
        ;
        assert((k + 1) / d == k / d + 1) by (nonlinear_arith)
            requires
                d * ((k + 1) / d) == d * (k / d) + d,
                d > 0,
        ;
    } else {
        assert(d * ((k + 1) / d) + (k + 1) % d == d * (k / d) + k % d + 1);
        assert((k + 1) / d == k / d) by (nonlinear_arith)
            requires
                d * ((k + 1) / d) + (k + 1) % d == d * (k / d) + k % d + 1,
                0 <= k % d < d,
                0 < (k + 1) % d < d,
                d > 0,
        ;
    }
}

proof fn lemma_era_step(y: int)
    ensures
        ({
            let era = y / 400;
            let yoe = y - era * 400;
            &&& 0 <= yoe < 400
            &&& yoe == 399 ==> (y + 1) / 400 == era + 1 && (y + 1) % 400 == 0
            &&& yoe < 399 ==> (y + 1) / 400 == era && (y + 1) % 400 == yoe + 1 && (y + 1) % 4 == (
            yoe + 1) % 4 && (y + 1) % 100 == (yoe + 1) % 100
        }),
{
    let era = y / 400;
    let yoe = y - era * 400;
    vstd::arithmetic::div_mod::lemma_fundamental_div_mod(y, 400);
    vstd::arithmetic::div_mod::lemma_mod_bound(y, 400);
    if yoe < 399 {
        vstd::arithmetic::div_mod::lemma_fundamental_div_mod_converse(y + 1, 400, era, yoe + 1);
        vstd::arithmetic::div_mod::lemma_fundamental_div_mod_converse(y + 1, 4, era * 100 + (yoe + 1) / 4, (yoe + 1) % 4);
        vstd::arithmetic::div_mod::lemma_fundamental_div_mod_converse(y + 1, 100, era * 4 + (yoe + 1) / 100, (yoe + 1) % 100);
    } else {
        vstd::arithmetic::div_mod::lemma_fundamental_div_mod_converse(y + 1, 400, era + 1, 0);
    }
}

/// The March-based year `y` (March of `y` to February of `y + 1`) has 365
/// days, and one more where February of `y + 1` has 29.
#[verifier::spinoff_prover]
#[verifier::rlimit(40)]
proof fn lemma_march_year_length(y: int)
    ensures
        march_year_start(y + 1) == march_year_start(y) + 365 + (if spec_is_leap_year(y + 1) {
            1int
        } else {
            0int
        }),
{
    let era = y / 400;
    let yoe = y - era * 400;
    lemma_era_step(y);
    if yoe < 399 {
        lemma_div_step(yoe, 4);
        lemma_div_step(yoe, 100);
    }
}

/// Law: the day count of the next day is one more than that of a real date.
pub proof fn lemma_days_from_civil_next_day(year: int, month: int, day: int)
    requires
        is_valid_date(year, month, day),
    ensures
        ({
            let (y, m, d) = spec_next_day(year, month, day);
            spec_days_from_civil(y, m, d) == spec_days_from_civil(year, month, day) + 1
        }),
{
    let (y2, m2, d2) = spec_next_day(year, month, day);
    let y = if month <= 2 { year - 1 } else { year };
    assert(spec_days_from_civil(year, month, day) == march_year_start(y) + (153 * (if month > 2 {
        month - 3
    } else {
        month + 9
    }) + 2) / 5 + day - 1 - 719_468);
    if month == 2 && m2 == 3 {
        lemma_march_year_length(year - 1);
        assert(spec_days_from_civil(y2, m2, d2) == march_year_start(year) + 0 - 719_468);
    } else {
        let yy = if m2 <= 2 { y2 - 1 } else { y2 };
        assert(yy == y);
        assert(spec_days_from_civil(y2, m2, d2) == march_year_start(y) + (153 * (if m2 > 2 {
            m2 - 3
        } else {
            m2 + 9
        }) + 2) / 5 + d2 - 1 - 719_468);
    }
}

#[derive(Clone, Copy, Debug, PartialEq, Eq, Hash, Structural)]
pub enum Weekday {
    Monday,
    Tuesday,
    Wednesday,
    Thursday,
    Friday,
    Saturday,
    Sunday,
}

/// Position of a weekday in a week that starts with Monday (Monday = 0).
pub open spec fn weekday_number(w: Weekday) -> int {
    match w {
        Weekday::Monday => 0,
        Weekday::Tuesday => 1,
        Weekday::Wednesday => 2,
        Weekday::Thursday => 3,
        Weekday::Friday => 4,
        Weekday::Saturday => 5,
        Weekday::Sunday => 6,
    }
}

/// The weekday whose number (Monday = 0) is `n`, for `n` in 0 ~ 6.
pub open spec fn weekday_of_number(n: int) -> Weekday {
    if n == 0 {
        Weekday::Monday
    } else if n == 1 {
        Weekday::Tuesday
    } else if n == 2 {
        Weekday::Wednesday
    } else if n == 3 {
        Weekday::Thursday
    } else if n == 4 {
        Weekday::Friday
    } else if n == 5 {
        Weekday::Saturday
    } else {
        Weekday::Sunday
    }
}

/// The weekday of the day that is `days` days after 1970-01-01, a Thursday.
pub open spec fn weekday_of_days(days: int) -> Weekday {
    weekday_of_number((days + 3) % 7)
}

pub open spec fn spec_short(w: Weekday) -> Seq<char> {
    match w {
        Weekday::Monday => "Mon"@,
        Weekday::Tuesday => "Tue"@,
        Weekday::Wednesday => "Wed"@,
        Weekday::Thursday => "Thu"@,
        Weekday::Friday => "Fri"@,
        Weekday::Saturday => "Sat"@,
        Weekday::Sunday => "Sun"@,
    }
}

/// The English names of the weekdays, Monday first.
pub open spec fn english_weekday_names() -> Seq<Seq<char>> {
    seq!["Monday"@, "Tuesday"@, "Wednesday"@, "Thursday"@, "Friday"@, "Saturday"@, "Sunday"@]
}

/// Law: a weekday's short name is the first three letters of its English
/// name.
pub proof fn law_short_weekday_names(w: Weekday)
    ensures
        spec_short(w) == english_weekday_names()[weekday_number(w)].take(3),
{
    reveal_strlit("Mon");
    reveal_strlit("Tue");
    reveal_strlit("Wed");
    reveal_strlit("Thu");
    reveal_strlit("Fri");
    reveal_strlit("Sat");
    reveal_strlit("Sun");
    reveal_strlit("Monday");
    reveal_strlit("Tuesday");
    reveal_strlit("Wednesday");
    reveal_strlit("Thursday");
    reveal_strlit("Friday");
    reveal_strlit("Saturday");
    reveal_strlit("Sunday");
    let n = english_weekday_names()[weekday_number(w)];
    assert(spec_short(w) =~= n.take(3));
}

impl Weekday {
    /// The seven weekdays in the order a calendar row shows them.
    pub fn from_sunday() -> (r: [Weekday; 7])
        ensures
            r@ == seq![
                Weekday::Sunday,
                Weekday::Monday,
                Weekday::Tuesday,
                Weekday::Wednesday,
                Weekday::Thursday,
                Weekday::Friday,
                Weekday::Saturday,
            ],
    {
        let r = [
            Weekday::Sunday,
            Weekday::Monday,
            Weekday::Tuesday,
            Weekday::Wednesday,
            Weekday::Thursday,
            Weekday::Friday,
            Weekday::Saturday,
        ];
        assert(r@ =~= seq![
            Weekday::Sunday,
            Weekday::Monday,
            Weekday::Tuesday,
            Weekday::Wednesday,
            Weekday::Thursday,
            Weekday::Friday,
            Weekday::Saturday,
        ]);
        r
    }

    /// Three-letter name of the weekday.
    pub fn short(&self) -> (r: &'static str)
        ensures
            r@ == spec_short(*self),
    {
        match self {
            Weekday::Monday => "Mon",
            Weekday::Tuesday => "Tue",
            Weekday::Wednesday => "Wed",
            Weekday::Thursday => "Thu",
            Weekday::Friday => "Fri",
            Weekday::Saturday => "Sat",
            Weekday::Sunday => "Sun",
        }
    }
}

impl From<Weekday> for u8 {
    fn from(w: Weekday) -> (r: u8) {
        match w {
            Weekday::Monday => 0,
            Weekday::Tuesday => 1,
            Weekday::Wednesday => 2,
            Weekday::Thursday => 3,
            Weekday::Friday => 4,
            Weekday::Saturday => 5,
            Weekday::Sunday => 6,
        }
    }
}

impl vstd::std_specs::convert::FromSpecImpl<Weekday> for u8 {
    open spec fn obeys_from_spec() -> bool {
        true
    }

    open spec fn from_spec(w: Weekday) -> u8 {
        weekday_number(w) as u8
    }
}

/// The weekday of the day `days` days after 1970-01-01.
pub fn weekday_from_days(days: i64) -> (r: Weekday)
    requires
        days < i64::MAX - 3,
    ensures
        r == weekday_of_days(days as int),
{
    let n = match (days + 3).checked_rem_euclid(7) {
        Some(n) => n,
        None => 0,
    };
    if n == 0 {
        Weekday::Monday
    } else if n == 1 {
        Weekday::Tuesday
    } else if n == 2 {
        Weekday::Wednesday
    } else if n == 3 {
        Weekday::Thursday
    } else if n == 4 {
        Weekday::Friday
    } else if n == 5 {
        Weekday::Saturday
    } else {
        Weekday::Sunday
    }
}

/// Law: consecutive days have consecutive weekdays.
pub proof fn lemma_weekday_of_next_day(days: int)
    ensures
        weekday_number(weekday_of_days(days + 1)) == (weekday_number(weekday_of_days(days)) + 1) % 7,
{
}

/// `chrono::Local::now()` read as (year, month, day) through `Datelike`.
/// chrono documents that a date it holds is a real calendar date
/// (month 1 ~ 12, day within the month); which date it is depends on the clock.
#[verifier::external_body]
fn local_today() -> (r: (i32, u8, u8))
    ensures
        is_valid_date(r.0 as int, r.1 as int, r.2 as int),
{
    let now = chrono::Local::now();
    (now.year(), now.month() as u8, now.day() as u8)
}

/// State of the calendar in the scratch pad.
pub struct IcedContext {
    pub year: i32,
    pub month: u8,
    pub start_weekday: Weekday,
    pub hovered_id: Option<(i32, u8, u8)>,
    pub today: (i32, u8, u8),
    pub selected: Vec<((i32, u8, u8), Weekday, i64)>,
}

#[derive(Debug)]
pub enum IcedMessage {
    JumpYear(i32),
    PrevMonth,
    NextMonth,
    Jump(i32, u8),
    Hover(Option<(i32, u8, u8)>),
    Select((i32, u8, u8), Weekday),
    RemoveSelection(usize),
    Today,
    Notify(String),
}

impl Clone for IcedMessage {
    fn clone(&self) -> (r: IcedMessage)
        ensures
            r == *self,
    {
        match self {
            IcedMessage::JumpYear(d) => IcedMessage::JumpYear(*d),
            IcedMessage::PrevMonth => IcedMessage::PrevMonth,
            IcedMessage::NextMonth => IcedMessage::NextMonth,
            IcedMessage::Jump(y, m) => IcedMessage::Jump(*y, *m),
            IcedMessage::Hover(id) => IcedMessage::Hover(*id),
            IcedMessage::Select(id, w) => IcedMessage::Select(*id, *w),
            IcedMessage::RemoveSelection(i) => IcedMessage::RemoveSelection(*i),
            IcedMessage::Today => IcedMessage::Today,
            IcedMessage::Notify(s) => IcedMessage::Notify(s.clone()),
        }
    }
}

/// The earliest and the latest year that the calendar shows.
pub open spec fn min_year() -> int {
    1960
}

pub open spec fn max_year() -> int {
    2199
}

/// (year, month) after clamping to the shown years, and whether it was clamped.
pub open spec fn spec_clamp(year: int, month: int) -> (int, int, bool) {
    if year < min_year() {
        (min_year(), 1, true)
    } else if year > max_year() {
        (max_year(), 12, true)
    } else {
        (year, month, false)
    }
}

/// The weekday of the first day of the month.
pub open spec fn first_weekday(year: int, month: int) -> Weekday {
    weekday_of_days(spec_days_from_civil(year, month, 1))
}

pub open spec fn month_name(month: int) -> Seq<char> {
    if month == 1 {
        "January"@
    } else if month == 2 {
        "February"@
    } else if month == 3 {
        "March"@
    } else if month == 4 {
        "April"@
    } else if month == 5 {
        "May"@
    } else if month == 6 {
        "June"@
    } else if month == 7 {
        "July"@
    } else if month == 8 {
        "August"@
    } else if month == 9 {
        "September"@
    } else if month == 10 {
        "October"@
    } else if month == 11 {
        "November"@
    } else {
        "December"@
    }
}

/// The message that reports a clamp.
pub open spec fn clamp_note() -> Seq<char> {
    "Only 1960 ~ 2199 is available."@
}

/// The month's name, centered in `width` columns (an odd space goes after
/// the name).
pub open spec fn month_header(month: int, width: int) -> Seq<char> {
    let name = month_name(month);
    let rem = if width >= name.len() { width - name.len() } else { 0 };
    blanks((rem / 2) as nat) + name + blanks((rem / 2 + rem % 2) as nat)
}

/// `n` spaces.
pub open spec fn blanks(n: nat) -> Seq<char> {
    Seq::new(n, |i: int| ' ')
}

/// The English names of the months, January first.
pub open spec fn english_month_names() -> Seq<Seq<char>> {
    seq![
        "January"@,
        "February"@,
        "March"@,
        "April"@,
        "May"@,
        "June"@,
        "July"@,
        "August"@,
        "September"@,
        "October"@,
        "November"@,
        "December"@,
    ]
}

/// Law: the month header names the month shown: it is the month's English
/// name with spaces around it, as many before as after or one more after,
/// filling the width where the name fits in it.
pub proof fn law_month_header_names_month(month: int, width: int)
    requires
        1 <= month <= 12,
    ensures
        exists|a: nat, b: nat|
            #![trigger blanks(a), blanks(b)]
            month_header(month, width) == blanks(a) + english_month_names()[month - 1] + blanks(b)
                && (a == b || a + 1 == b) && (width
                >= english_month_names()[month - 1].len() ==> a + b + english_month_names()[month
                - 1].len() == width),
{
    let name = month_name(month);
    assert(name == english_month_names()[month - 1]);
    let rem = if width >= name.len() { width - name.len() } else { 0 };
    let a = (rem / 2) as nat;
    let b = (rem / 2 + rem % 2) as nat;
    assert(month_header(month, width) == blanks(a) + english_month_names()[month - 1] + blanks(b));
}

impl IcedContext {
    /// The month shown is a real month, today is a real date, and the
    /// weekday of the first of the month is the one kept.
    pub open spec fn wf(&self) -> bool {
        &&& 1 <= self.month <= 12
        &&& is_valid_date(self.today.0 as int, self.today.1 as int, self.today.2 as int)
        &&& self.start_weekday == first_weekday(self.year as int, self.month as int)
    }

    /// The calendar opens at the current month.
    pub fn new() -> (r: IcedContext)
        ensures
            r.wf(),
            is_valid_date(r.today.0 as int, r.today.1 as int, r.today.2 as int),
            r.year == r.today.0,
            r.month == r.today.1,
            r.start_weekday == first_weekday(r.year as int, r.month as int),
            r.hovered_id is None,
            r.selected@.len() == 0,
    {
        let today = local_today();

        let mut result = IcedContext {
            year: today.0,
            month: today.1,
            start_weekday: Weekday::Monday,
            hovered_id: None,
            today,
            selected: Vec::new(),
        };
        result.calc_weekday();
        result
    }

    /// The month's name, centered in `width` columns.
    pub fn render_month(&self, width: usize) -> (r: String)
        requires
            1 <= self.month <= 12,
        ensures
            r@ == month_header(self.month as int, width as int),
    {
        let m = if self.month == 1 {
            "January"
        } else if self.month == 2 {
            "February"
        } else if self.month == 3 {
            "March"
        } else if self.month == 4 {
            "April"
        } else if self.month == 5 {
            "May"
        } else if self.month == 6 {
            "June"
        } else if self.month == 7 {
            "July"
        } else if self.month == 8 {
            "August"
        } else if self.month == 9 {
            "September"
        } else if self.month == 10 {
            "October"
        } else if self.month == 11 {
            "November"
        } else {
            "December"
        };
        proof {
            reveal_strlit("January");
            reveal_strlit("February");
            reveal_strlit("March");
            reveal_strlit("April");
            reveal_strlit("May");
            reveal_strlit("June");
            reveal_strlit("July");
            reveal_strlit("August");
            reveal_strlit("September");
            reveal_strlit("October");
            reveal_strlit("November");
            reveal_strlit("December");
        }
        let len = m.unicode_len();
        let rem = if width >= len { width - len } else { 0 };
        let mut r = spaces(rem / 2);
        r.append(m);
        let post = spaces(rem / 2 + rem % 2);
        r.append(post.as_str());
        r
    }

    fn clamp(&mut self) -> (clamped: bool)
        ensures
            (final(self).year as int, final(self).month as int, clamped) == spec_clamp(
                old(self).year as int,
                old(self).month as int,
            ),
            final(self).start_weekday == old(self).start_weekday,
            final(self).hovered_id == old(self).hovered_id,
            final(self).today == old(self).today,
            final(self).selected == old(self).selected,
    {
        let mut clamped = false;

        if self.year < 1960 {
            self.year = 1960;
            self.month = 1;
            clamped = true;
        } else if self.year > 2199 {
            self.year = 2199;
            self.month = 12;
            clamped = true;
        }

        clamped
    }

    fn calc_weekday(&mut self)
        ensures
            final(self).start_weekday == first_weekday(old(self).year as int, old(self).month as int),
            final(self).year == old(self).year,
            final(self).month == old(self).month,
            final(self).hovered_id == old(self).hovered_id,
            final(self).today == old(self).today,
            final(self).selected == old(self).selected,
    {
        let days = days_from_civil(self.year, self.month, 1);
        // 1970-01-01 was a Thursday.
        self.start_weekday = weekday_from_days(days);
    }
}

/// Whether the message moves the calendar to another month.
pub open spec fn is_navigation(message: IcedMessage) -> bool {
    message is JumpYear || message is PrevMonth || message is NextMonth || message is Jump
        || message is Today
}

/// The (year, month) that a navigation message asks for, before clamping.
pub open spec fn navigation_target(c: &IcedContext, message: IcedMessage) -> (int, int) {
    match message {
        IcedMessage::JumpYear(d) => (c.year + d, c.month as int),
        IcedMessage::PrevMonth => if c.month == 1 {
            (c.year - 1, 12)
        } else {
            (c.year as int, c.month - 1)
        },
        IcedMessage::NextMonth => if c.month == 12 {
            (c.year + 1, 1)
        } else {
            (c.year as int, c.month + 1)
        },
        IcedMessage::Jump(y, m) => (y as int, m as int),
        _ => (c.today.0 as int, c.today.1 as int),
    }
}

/// Applies a message to the calendar. It returns the message that has to
/// be dispatched next, if any (a note when the year had to be clamped).
pub fn update(context: &mut IcedContext, message: IcedMessage) -> (r: Option<IcedMessage>)
    requires
        !(message is Notify),
        message matches IcedMessage::JumpYear(d) ==> i32::MIN <= old(context).year + d <= i32::MAX,
        message is PrevMonth ==> old(context).month >= 1 && (old(context).month == 1 ==> old(
            context,
        ).year > i32::MIN),
        message is NextMonth ==> old(context).month < 255 && (old(context).month == 12 ==> old(
            context,
        ).year < i32::MAX),
        message matches IcedMessage::RemoveSelection(i) ==> i < old(context).selected@.len(),
    ensures
        is_navigation(message) ==> ({
            let (ty, tm) = navigation_target(old(context), message);
            let (y, m, clamped) = spec_clamp(ty, tm);
            &&& final(context).year == y
            &&& final(context).month == m
            &&& final(context).start_weekday == first_weekday(y, m)
            &&& min_year() <= final(context).year <= max_year()
            &&& final(context).hovered_id == old(context).hovered_id
            &&& final(context).today == old(context).today
            &&& final(context).selected == old(context).selected
            &&& clamped ==> (r matches Some(IcedMessage::Notify(note)) && note@ == clamp_note())
            &&& !clamped ==> r is None
        }),
        !is_navigation(message) ==> r is None && final(context).year == old(context).year
            && final(context).month == old(context).month && final(context).start_weekday == old(
            context,
        ).start_weekday && final(context).today == old(context).today,
        message matches IcedMessage::Hover(id) ==> final(context).hovered_id == id
            && final(context).selected == old(context).selected,
        message matches IcedMessage::Select(id, w) ==> final(context).selected@ == old(
            context,
        ).selected@.push((id, w, spec_days_from_civil(id.0 as int, id.1 as int, id.2 as int) as i64))
            && final(context).hovered_id == old(context).hovered_id,
        message matches IcedMessage::RemoveSelection(i) ==> final(context).selected@ == old(
            context,
        ).selected@.remove(i as int) && final(context).hovered_id == old(context).hovered_id,
        // A well-formed calendar stays so (a jump names a real month).
        old(context).wf() && (message is Jump ==> 1 <= message->Jump_1 <= 12) ==> final(context).wf(),
{
    let mut clamped = false;

    match message {
        IcedMessage::JumpYear(d) => {
            context.year = context.year + d;
            clamped = context.clamp();
            context.calc_weekday();
        },
        IcedMessage::PrevMonth => {
            if context.month == 1 {
                context.month = 12;
                context.year = context.year - 1;
            } else {
                context.month = context.month - 1;
            }

            clamped = context.clamp();
            context.calc_weekday();
        },
        IcedMessage::NextMonth => {
            if context.month == 12 {
                context.month = 1;
                context.year = context.year + 1;
            } else {
                context.month = context.month + 1;
            }

            clamped = context.clamp();
            context.calc_weekday();
        },
        IcedMessage::Jump(y, m) => {
            context.year = y;
            context.month = m;
            clamped = context.clamp();
            context.calc_weekday();
        },
        IcedMessage::RemoveSelection(i) => {
            context.selected.remove(i);
        },
        IcedMessage::Hover(id) => {
            context.hovered_id = id;
        },
        IcedMessage::Select(id, weekday) => {
            let days = days_from_civil(id.0, id.1, id.2);
            context.selected.push((id, weekday, days));
        },
        IcedMessage::Today => {
            let (year, month, _) = context.today;
            context.year = year;
            context.month = month;
            clamped = context.clamp();
            context.calc_weekday();
        },
        IcedMessage::Notify(_) => {},
    }

    if clamped {
        Some(IcedMessage::Notify("Only 1960 ~ 2199 is available.".to_owned()))
    } else {
        None
    }
}

/// A day of the calendar grid.
#[derive(Clone, Copy, Debug)]
pub struct CalendarCell {
    pub date: (i32, u8, u8),
    /// The weekday of the grid's column.
    pub weekday: Weekday,
    /// The day belongs to the month shown (it can be picked).
    pub in_month: bool,
    pub is_today: bool,
}

/// Weeks shown, and days per week.
pub const CALENDAR_WEEKS: usize = 9;

/// The weekdays in the order of the grid's columns, Sunday first.
pub open spec fn column_weekday(k: int) -> Weekday {
    weekday_of_number((k + 6) % 7)
}

/// Days from the first grid cell to the first of the month: two weeks,
/// and the days of the first week before the first.
pub open spec fn grid_lead(start_weekday: Weekday) -> int {
    14 + (weekday_number(start_weekday) + 1) % 7
}

/// Law: 1 January 2024 was a Monday, and the weekdays run on one a day and
/// come round every seven days.
pub proof fn law_weekdays_from_a_known_monday(days: int)
    ensures
        weekday_of_days(spec_days_from_civil(2024, 1, 1)) == Weekday::Monday,
        weekday_number(weekday_of_days(days + 1)) == (weekday_number(weekday_of_days(days)) + 1) % 7,
        weekday_of_days(days + 7) == weekday_of_days(days),
{
    assert(spec_days_from_civil(2024, 1, 1) == 19723);
}

/// Law: the notice given on clamping names the first and the last year
/// that the calendar shows.
pub proof fn law_clamp_note_names_the_limits()
    ensures
        clamp_note() == "Only "@ + dec_repr(min_year() as nat) + " ~ "@ + dec_repr(max_year() as nat)
            + " is available."@,
{
    reveal_strlit("Only 1960 ~ 2199 is available.");
    reveal_strlit("Only ");
    reveal_strlit(" ~ ");
    reveal_strlit(" is available.");
    reveal_with_fuel(dec_repr, 5);
    assert(dec_repr(1960) =~= seq!['1', '9', '6', '0']);
    assert(dec_repr(2199) =~= seq!['2', '1', '9', '9']);
    assert(clamp_note() =~= "Only "@ + dec_repr(min_year() as nat) + " ~ "@ + dec_repr(max_year() as nat)
        + " is available."@);
}

/// Law: the grid's columns run from Sunday to Saturday, each the day after
/// the one before, and the first of the month stands in the third row,
/// under its own weekday.
pub proof fn law_first_of_month_in_third_row(start_weekday: Weekday)
    ensures
        column_weekday(0) == Weekday::Sunday,
        column_weekday(6) == Weekday::Saturday,
        forall|k: int|
            0 <= k < 6 ==> weekday_number(#[trigger] column_weekday(k + 1)) == (weekday_number(
                column_weekday(k),
            ) + 1) % 7,
        grid_lead(start_weekday) / 7 == 2,
        column_weekday(grid_lead(start_weekday)) == start_weekday,
{
    assert forall|k: int|
        0 <= k < 6 implies weekday_number(#[trigger] column_weekday(k + 1)) == (weekday_number(
        column_weekday(k),
    ) + 1) % 7 by {
        assert(0 <= k < 6);
        if k == 0 {
        } else if k == 1 {
        } else if k == 2 {
        } else if k == 3 {
        } else if k == 4 {
        } else {
        }
    }
}

/// Law: the day count of the day before a real date is one less.
pub proof fn lemma_days_from_civil_prev_day(year: int, month: int, day: int)
    requires
        is_valid_date(year, month, day),
    ensures
        ({
            let (y, m, d) = spec_prev_day(year, month, day);
            spec_days_from_civil(y, m, d) == spec_days_from_civil(year, month, day) - 1
        }),
{
    lemma_next_prev_day_valid(year, month, day);
    lemma_next_prev_day_inverse(year, month, day);
    let (y, m, d) = spec_prev_day(year, month, day);
    lemma_days_from_civil_next_day(y, m, d);
}

proof fn lemma_grid_weekday(first: int, lead: int, k: int, wd: int)
    requires
        0 <= wd < 7,
        (first + 3) % 7 == wd,
        lead == 14 + (wd + 1) % 7,
        0 <= k,
    ensures
        (first - lead + k + 3) % 7 == (k + 6) % 7,
{
    if wd == 6 {
        assert((first - lead + k + 3) % 7 == (first + 3 - 14 + k) % 7);
    } else {
        assert((first - lead + k + 3) % 7 == (first + 3 - 15 - wd + k) % 7);
    }
}

/// The month before `(year, month)`.
pub open spec fn prev_month(year: int, month: int) -> (int, int) {
    if month == 1 { (year - 1, 12) } else { (year, month - 1) }
}

/// The month after `(year, month)`.
pub open spec fn next_month(year: int, month: int) -> (int, int) {
    if month == 12 { (year + 1, 1) } else { (year, month + 1) }
}

/// The day after a real date is the next day of its month, or the first
/// of the next month after its last day.
proof fn lemma_next_day_shape(year: int, month: int, day: int)
    requires
        is_valid_date(year, month, day),
    ensures
        spec_next_day(year, month, day) == if day < days_in_month(year, month) {
            (year, month, day + 1)
        } else {
            (next_month(year, month).0, next_month(year, month).1, 1)
        },
{
}

/// The day before a real date is the previous day of its month, or the
/// last day of the month before on the first.
proof fn lemma_prev_day_shape(year: int, month: int, day: int)
    requires
        is_valid_date(year, month, day),
    ensures
        spec_prev_day(year, month, day) == if day > 1 {
            (year, month, day - 1)
        } else {
            (prev_month(year, month).0, prev_month(year, month).1, days_in_month(
                prev_month(year, month).0,
                prev_month(year, month).1,
            ))
        },
{
}

/// The date of grid cell `k` for the month `(year, month)` whose first
/// day stands in cell `lead`: the end of the month before, the month, then
/// the start of the month after.
pub open spec fn grid_date(year: int, month: int, lead: int, k: int) -> (int, int, int) {
    let pm = prev_month(year, month);
    let nm = next_month(year, month);
    let dprev = days_in_month(pm.0, pm.1);
    let dself = days_in_month(year, month);
    if k < lead {
        (pm.0, pm.1, dprev - lead + 1 + k)
    } else if k < lead + dself {
        (year, month, k - lead + 1)
    } else {
        (nm.0, nm.1, k - lead - dself + 1)
    }
}

proof fn lemma_grid_date(year: int, month: int, lead: int, k: int)
    requires
        1 <= month <= 12,
        i32::MIN <= year <= i32::MAX,
        month == 1 ==> year > i32::MIN,
        month == 12 ==> year < i32::MAX,
        14 <= lead <= 20,
        0 <= k < 7 * CALENDAR_WEEKS,
    ensures
        ({
            let g = grid_date(year, month, lead, k);
            &&& is_valid_date(g.0, g.1, g.2)
            &&& i32::MIN <= g.0 <= i32::MAX
            &&& (g.1 == 12 && g.2 == 31 ==> g.0 < i32::MAX)
            &&& (k <= lead && g.1 == 1 && g.2 == 1 ==> g.0 > i32::MIN)
            &&& (1 <= k <= lead ==> spec_prev_day(g.0, g.1, g.2) == grid_date(year, month, lead, k - 1))
            &&& (k + 1 < 7 * CALENDAR_WEEKS ==> spec_next_day(g.0, g.1, g.2) == grid_date(year, month, lead, k + 1))
        }),
{
    let g = grid_date(year, month, lead, k);
    let pm = prev_month(year, month);
    let dprev = days_in_month(pm.0, pm.1);
    let dself = days_in_month(year, month);
    assert(28 <= dprev <= 31 && 28 <= dself <= 31);
    assert(is_valid_date(g.0, g.1, g.2));
    if 1 <= k <= lead {
        lemma_prev_day_shape(g.0, g.1, g.2);
    }
    if k + 1 < 7 * CALENDAR_WEEKS {
        lemma_next_day_shape(g.0, g.1, g.2);
    }
}

impl IcedContext {
    /// The cells of the calendar: `CALENDAR_WEEKS` weeks from Sunday to
    /// Saturday, from two weeks before the week of the first of the month
    /// on, one day after another.
    #[verifier::spinoff_prover]
    #[verifier::rlimit(60)]
    pub fn calendar_cells(&self) -> (r: Vec<CalendarCell>)
        requires
            1 <= self.month <= 12,
            self.month == 1 ==> self.year > i32::MIN,
            self.month == 12 ==> self.year < i32::MAX,
            self.start_weekday == first_weekday(self.year as int, self.month as int),
        ensures
            r@.len() == 7 * CALENDAR_WEEKS,
            forall|k: int|
                0 <= k < r@.len() ==> {
                    let c = #[trigger] r@[k];
                    &&& is_valid_date(c.date.0 as int, c.date.1 as int, c.date.2 as int)
                    &&& spec_days_from_civil(c.date.0 as int, c.date.1 as int, c.date.2 as int)
                        == spec_days_from_civil(self.year as int, self.month as int, 1) - grid_lead(
                        self.start_weekday,
                    ) + k
                    &&& c.weekday == column_weekday(k)
                    // Each column's weekday is the weekday of its dates.
                    &&& c.weekday == weekday_of_days(
                        spec_days_from_civil(c.date.0 as int, c.date.1 as int, c.date.2 as int),
                    )
                    &&& c.in_month == (c.date.1 == self.month)
                    &&& c.is_today == (c.date == self.today)
                },
    {
        let ghost first = spec_days_from_civil(self.year as int, self.month as int, 1);
        let ghost wd = weekday_number(self.start_weekday);
        let lead: u8 = 14 + (u8::from(self.start_weekday) + 1) % 7;
        assert(lead == grid_lead(self.start_weekday));
        let ghost sy = self.year as int;
        let ghost sm = self.month as int;
        let (mut year, mut month, mut day) = (self.year, self.month, 1u8);
        let mut i: u8 = 0;
        while i < lead
            invariant
                i <= lead,
                14 <= lead <= 20,
                1 <= sm <= 12,
                i32::MIN <= sy <= i32::MAX,
                sm == 1 ==> sy > i32::MIN,
                sm == 12 ==> sy < i32::MAX,
                (year as int, month as int, day as int) == grid_date(sy, sm, lead as int, lead - i),
                spec_days_from_civil(year as int, month as int, day as int) == first - i,
            decreases lead - i,
        {
            proof {
                lemma_grid_date(sy, sm, lead as int, lead - i);
                lemma_days_from_civil_prev_day(year as int, month as int, day as int);
            }
            let (y, m, d) = prev_day(year, month, day);
            year = y;
            month = m;
            day = d;
            i += 1;
        }
        let week = Weekday::from_sunday();
        let mut cells: Vec<CalendarCell> = Vec::new();
        let mut k: usize = 0;
        while k < 7 * CALENDAR_WEEKS
            invariant
                k <= 7 * CALENDAR_WEEKS,
                cells@.len() == k,
                14 <= lead <= 20,
                1 <= sm <= 12,
                sy == self.year,
                sm == self.month,
                i32::MIN <= sy <= i32::MAX,
                sm == 1 ==> sy > i32::MIN,
                sm == 12 ==> sy < i32::MAX,
                k < 7 * CALENDAR_WEEKS ==> (year as int, month as int, day as int) == grid_date(
                    sy,
                    sm,
                    lead as int,
                    k as int,
                ),
                k < 7 * CALENDAR_WEEKS ==> spec_days_from_civil(year as int, month as int, day as int)
                    == first - lead + k,
                week@ == seq![
                    Weekday::Sunday,
                    Weekday::Monday,
                    Weekday::Tuesday,
                    Weekday::Wednesday,
                    Weekday::Thursday,
                    Weekday::Friday,
                    Weekday::Saturday,
                ],
                0 <= wd < 7,
                (first + 3) % 7 == wd,
                lead == 14 + (wd + 1) % 7,
                forall|j: int|
                    0 <= j < k ==> {
                        let c = #[trigger] cells@[j];
                        &&& is_valid_date(c.date.0 as int, c.date.1 as int, c.date.2 as int)
                        &&& spec_days_from_civil(c.date.0 as int, c.date.1 as int, c.date.2 as int)
                            == first - lead + j
                        &&& c.weekday == column_weekday(j)
                        &&& c.weekday == weekday_of_days(
                            spec_days_from_civil(c.date.0 as int, c.date.1 as int, c.date.2 as int),
                        )
                        &&& c.in_month == (c.date.1 == self.month)
                        &&& c.is_today == (c.date == self.today)
                    },
            decreases 7 * CALENDAR_WEEKS - k,
        {
            let weekday = week[k % 7];
            proof {
                lemma_grid_weekday(first, lead as int, k as int, wd);
                assert(weekday == column_weekday(k as int));
                lemma_grid_date(sy, sm, lead as int, k as int);
            }
            let date = (year, month, day);
            let is_today = date.0 == self.today.0 && date.1 == self.today.1 && date.2 == self.today.2;
            cells.push(CalendarCell { date, weekday, in_month: month == self.month, is_today });
            proof {
                lemma_days_from_civil_next_day(year as int, month as int, day as int);
            }
            let (y, m, d) = next_day(year, month, day);
            year = y;
            month = m;
            day = d;
            k += 1;
        }
        cells
    }
}

} // verus!
