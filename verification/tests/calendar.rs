use neukgu::calendar::{
    days_from_civil, is_leap_year, next_day, prev_day, update, weekday_from_days, IcedContext, IcedMessage,
    Weekday,
};

#[test]
fn leap_years() {
    assert!(is_leap_year(2024));
    assert!(is_leap_year(2000));
    assert!(!is_leap_year(1900));
    assert!(!is_leap_year(2023));
    assert!(is_leap_year(-4));
}

#[test]
fn days_from_civil_counts_from_the_epoch() {
    assert_eq!(days_from_civil(1970, 1, 1), 0);
    assert_eq!(days_from_civil(1970, 1, 2), 1);
    assert_eq!(days_from_civil(1969, 12, 31), -1);
    assert_eq!(days_from_civil(2000, 3, 1), 11017);
    assert_eq!(days_from_civil(2024, 2, 29), 19782);
}

#[test]
fn next_and_prev_day_cross_month_and_year_ends() {
    assert_eq!(next_day(2024, 2, 28), (2024, 2, 29));
    assert_eq!(next_day(2023, 2, 28), (2023, 3, 1));
    assert_eq!(next_day(2023, 12, 31), (2024, 1, 1));
    assert_eq!(next_day(2023, 4, 30), (2023, 5, 1));
    assert_eq!(prev_day(2024, 3, 1), (2024, 2, 29));
    assert_eq!(prev_day(2023, 3, 1), (2023, 2, 28));
    assert_eq!(prev_day(2024, 1, 1), (2023, 12, 31));
    assert_eq!(prev_day(2023, 5, 1), (2023, 4, 30));
}

#[test]
fn next_day_then_prev_day_is_the_same_day() {
    for (y, m, d) in [(2024, 2, 29), (2023, 12, 31), (2000, 1, 1), (1999, 6, 30)] {
        let (ny, nm, nd) = next_day(y, m, d);
        assert_eq!(prev_day(ny, nm, nd), (y, m, d));
        assert_eq!(days_from_civil(ny, nm, nd), days_from_civil(y, m, d) + 1);
    }
}

#[test]
fn weekdays() {
    // 1970-01-01 was a Thursday
    assert_eq!(weekday_from_days(0), Weekday::Thursday);
    assert_eq!(weekday_from_days(-1), Weekday::Wednesday);
    assert_eq!(weekday_from_days(days_from_civil(2024, 1, 1)), Weekday::Monday);
    let week = Weekday::from_sunday();
    assert_eq!(week[0], Weekday::Sunday);
    assert_eq!(week[6], Weekday::Saturday);
    assert_eq!(Weekday::Sunday.short(), "Sun");
    assert_eq!(Weekday::Wednesday.short(), "Wed");
    assert_eq!(u8::from(Weekday::Monday), 0);
    assert_eq!(u8::from(Weekday::Sunday), 6);
}

fn calendar_at(year: i32, month: u8) -> IcedContext {
    let mut c = IcedContext::new();
    update(&mut c, IcedMessage::Jump(year, month));
    c
}

#[test]
fn month_navigation_wraps_years() {
    let mut c = calendar_at(2023, 12);
    assert_eq!(update(&mut c, IcedMessage::NextMonth).is_none(), true);
    assert_eq!((c.year, c.month), (2024, 1));
    assert_eq!(c.start_weekday, Weekday::Monday);
    update(&mut c, IcedMessage::PrevMonth);
    assert_eq!((c.year, c.month), (2023, 12));
    assert_eq!(c.start_weekday, Weekday::Friday);
}

#[test]
fn navigation_is_clamped_to_the_shown_years() {
    let mut c = calendar_at(2000, 5);
    match update(&mut c, IcedMessage::JumpYear(500)) {
        Some(IcedMessage::Notify(note)) => assert_eq!(note, "Only 1960 ~ 2199 is available."),
        other => panic!("{other:?}"),
    }
    assert_eq!((c.year, c.month), (2199, 12));
    match update(&mut c, IcedMessage::Jump(1000, 7)) {
        Some(IcedMessage::Notify(_)) => {},
        other => panic!("{other:?}"),
    }
    assert_eq!((c.year, c.month), (1960, 1));
}

#[test]
fn selections_are_kept_with_their_day_count() {
    let mut c = calendar_at(2024, 1);
    update(&mut c, IcedMessage::Select((2024, 1, 1), Weekday::Monday));
    update(&mut c, IcedMessage::Select((1970, 1, 2), Weekday::Friday));
    assert_eq!(c.selected.len(), 2);
    assert_eq!(c.selected[0].2, 19723);
    assert_eq!(c.selected[1].2, 1);
    update(&mut c, IcedMessage::RemoveSelection(0));
    assert_eq!(c.selected.len(), 1);
    assert_eq!(c.selected[0].0, (1970, 1, 2));
}

#[test]
fn render_month_centers_the_name() {
    let c = calendar_at(2024, 5);
    assert_eq!(c.render_month(9), "   May   ");
    let c = calendar_at(2024, 9);
    assert_eq!(c.render_month(10), "September ");
    assert_eq!(c.render_month(3), "September");
}

#[test]
fn the_grid_starts_on_a_sunday_two_weeks_ahead() {
    let c = calendar_at(2024, 1);
    let cells = c.calendar_cells();
    assert_eq!(cells.len(), 63);
    assert_eq!(cells[0].date, (2023, 12, 17));
    assert_eq!(cells[0].weekday, Weekday::Sunday);
    assert!(!cells[0].in_month);
    assert_eq!(cells[15].date, (2024, 1, 1));
    assert_eq!(cells[15].weekday, Weekday::Monday);
    assert!(cells[15].in_month);
    assert_eq!(cells[62].date, (2024, 2, 17));
}

#[test]
fn every_column_shows_the_weekday_of_its_dates() {
    for (y, m) in [(2024, 2), (2023, 10), (2000, 3), (1999, 12)] {
        let c = calendar_at(y, m);
        let cells = c.calendar_cells();
        for (k, cell) in cells.iter().enumerate() {
            let days = days_from_civil(cell.date.0, cell.date.1, cell.date.2);
            assert_eq!(weekday_from_days(days), cell.weekday);
            assert_eq!(cell.weekday, Weekday::from_sunday()[k % 7]);
            if k > 0 {
                let prev = cells[k - 1].date;
                assert_eq!(days, days_from_civil(prev.0, prev.1, prev.2) + 1);
            }
        }
    }
}
