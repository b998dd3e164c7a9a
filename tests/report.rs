use chrono::{Datelike, NaiveDate};
use track::date::Date;
use track::grid::{classify, Severity};
use track::redmine::{Named, TimeEntry};
use track::report::{MalformedDate, Report};

fn hundredths(hours: f64) -> u64 {
    (hours * 100.0).round() as u64
}

fn date_of(d: &NaiveDate) -> Date {
    Date::from_ymd(d.year(), d.month(), d.day()).unwrap()
}

fn time_entry(
    id: i32,
    user: (i32, &str),
    project: (i32, &str),
    hours: f64,
    spent_on: &NaiveDate,
) -> TimeEntry {
    TimeEntry {
        id,
        user: Named {
            id: user.0,
            name: Some(user.1.to_string()),
        },
        project: Named {
            id: project.0,
            name: Some(project.1.to_string()),
        },
        issue: None,
        hours: hundredths(hours),
        comments: None,
        spent_on: spent_on.format("%Y-%m-%d").to_string(),
        custom_fields: vec![],
    }
}

fn ymd(y: i32, m: u32, d: u32) -> NaiveDate {
    NaiveDate::from_ymd_opt(y, m, d).unwrap()
}

#[test]
fn test_days_till_sunday() {
    let monday = date_of(&ymd(2023, 2, 16));
    let funday = date_of(&ymd(2023, 2, 19));
    assert_eq!(monday.sunday_of_week(), funday);
}

#[test]
fn test_calculate() {
    let day1 = ymd(2022, 1, 1);
    let day2 = ymd(2022, 1, 3);
    let day3 = ymd(2022, 1, 5);

    let time_entries = vec![
        time_entry(1, (1, "John Doe"), (1, "Project A"), 4.0, &day1),
        time_entry(2, (2, "Jane Doe"), (2, "Project B"), 2.0, &day2),
        time_entry(3, (1, "John Doe"), (1, "Project A"), 5.0, &day3),
    ];

    let result = Report::from_entries(&time_entries).unwrap();

    assert_eq!(result.project_name(1), Some("Project A".to_string()));
    assert_eq!(result.project_name(2), Some("Project B".to_string()));

    let expected_cumulative_hours = vec![((day1, 1), 4.0), ((day2, 2), 2.0), ((day3, 1), 5.0)];

    for ((day, project), value) in expected_cumulative_hours {
        assert_eq!(result.get_or_zero(&date_of(&day), project), hundredths(value));
    }
}

#[test]
fn test_sum_of_hours_per_project_equals_sum_of_hours_per_weekday() {
    let day1 = ymd(2022, 1, 1);
    let day2 = ymd(2022, 1, 3);
    let day3 = ymd(2022, 1, 5);

    let time_entries = vec![
        time_entry(1, (1, "John Doe"), (1, "Project A"), 4.0, &day1),
        time_entry(2, (2, "Jane Doe"), (2, "Project B"), 2.0, &day2),
        time_entry(3, (1, "John Doe"), (1, "Project A"), 5.0, &day3),
    ];

    let result = Report::from_entries(&time_entries).unwrap();

    let sum_of_hours_per_project: u64 = result.hours_per_project().iter().map(|p| p.hours).sum();
    let sum_of_hours_per_weekday: u64 = result.hours_at().iter().map(|d| d.hours).sum();

    assert_eq!(sum_of_hours_per_project, sum_of_hours_per_weekday);
}

#[test]
fn test_daily_report_calculation() {
    let day1 = ymd(2022, 1, 1);
    let day2 = ymd(2022, 1, 3);

    let day1_entries = vec![
        time_entry(1, (1, "John Doe"), (1, "Project A"), 4.0, &day1),
        time_entry(3, (1, "John Doe"), (1, "Project A"), 5.0, &day1),
    ];

    let mut time_entries = vec![
        time_entry(2, (2, "Jane Doe"), (2, "Project B"), 2.0, &day2),
        time_entry(4, (1, "John Doe"), (1, "Project A"), 5.0, &day2),
    ];
    time_entries.extend(day1_entries.clone());

    let report = Report::from_entries(&time_entries).unwrap();
    let daily_report = report.get_report_for_date(&date_of(&day1));

    let expected_total_hours = 9.0;
    assert_eq!(daily_report.total_hours(), hundredths(expected_total_hours));

    assert_eq!(daily_report.entries(), &day1_entries);
}

fn three_entries() -> Vec<TimeEntry> {
    vec![
        time_entry(1, (1, "John Doe"), (1, "ProjectA"), 4.0, &ymd(2022, 1, 1)),
        time_entry(2, (2, "Jane Doe"), (2, "ProjectB"), 2.0, &ymd(2022, 1, 3)),
        time_entry(3, (1, "John Doe"), (1, "ProjectA"), 5.0, &ymd(2022, 1, 5)),
    ]
}

fn project_total(report: &Report, id: i32) -> Option<u64> {
    report
        .hours_per_project()
        .iter()
        .find(|p| p.project_id == id)
        .map(|p| p.hours)
}

#[test]
fn project_totals_and_day_totals_agree() {
    let report = Report::from_entries(&three_entries()).unwrap();
    assert_eq!(project_total(&report, 1), Some(900));
    assert_eq!(project_total(&report, 2), Some(200));
    let by_project: u64 = report.hours_per_project().iter().map(|p| p.hours).sum();
    let by_day: u64 = report.hours_at().iter().map(|d| d.hours).sum();
    assert_eq!(by_project, 1100);
    assert_eq!(by_day, 1100);
    assert_eq!(report.hours_at().len(), 3);
}

#[test]
fn daily_report_of_a_day_with_and_without_entries() {
    let entries = three_entries();
    let report = Report::from_entries(&entries).unwrap();
    let first = report.get_report_for_date(&date_of(&ymd(2022, 1, 1)));
    assert_eq!(first.entries(), &vec![entries[0].clone()]);
    assert_eq!(first.total_hours(), 400);
    let empty = report.get_report_for_date(&date_of(&ymd(2022, 1, 2)));
    assert!(empty.entries().is_empty());
    assert_eq!(empty.total_hours(), 0);
}

#[test]
fn daily_report_leaves_out_other_days() {
    let saturday = ymd(2022, 1, 8);
    let entries = vec![
        time_entry(1, (1, "John Doe"), (1, "Project A"), 4.0, &saturday),
        time_entry(2, (1, "John Doe"), (1, "Project A"), 2.0, &ymd(2022, 1, 10)),
        time_entry(3, (1, "John Doe"), (1, "Project A"), 5.0, &saturday),
        time_entry(4, (1, "John Doe"), (1, "Project A"), 5.0, &ymd(2022, 1, 12)),
    ];
    let report = Report::from_entries(&entries).unwrap();
    let day = report.get_report_for_date(&date_of(&saturday));
    assert_eq!(day.total_hours(), 900);
    assert_eq!(day.entries(), &vec![entries[0].clone(), entries[2].clone()]);
    assert_eq!(report.hours_on_day(&date_of(&saturday)), 900);
}

#[test]
fn daily_report_sums_its_entries() {
    let day = ymd(2023, 3, 7);
    let entries = vec![
        time_entry(1, (1, "A"), (3, "X"), 1.25, &day),
        time_entry(2, (1, "A"), (4, "Y"), 0.5, &ymd(2023, 3, 8)),
        time_entry(3, (1, "A"), (4, "Y"), 2.0, &day),
    ];
    let report = Report::from_entries(&entries).unwrap();
    let daily = report.get_report_for_date(&date_of(&day));
    let summed: u64 = daily.entries().iter().map(|e| e.hours).sum();
    assert_eq!(daily.total_hours(), summed);
    assert_eq!(summed, 325);
}

#[test]
fn weekly_grid_classifies_days() {
    let monday = ymd(2023, 2, 13);
    let tuesday = ymd(2023, 2, 14);
    let wednesday = ymd(2023, 2, 15);
    let entries = vec![
        time_entry(1, (1, "A"), (1, "Alpha"), 3.0, &monday),
        time_entry(2, (1, "A"), (2, "Beta"), 2.0, &monday),
        time_entry(3, (1, "A"), (1, "Alpha"), 9.0, &tuesday),
        time_entry(4, (1, "A"), (1, "Alpha"), 6.0, &wednesday),
        time_entry(5, (1, "A"), (2, "Beta"), 6.0, &wednesday),
    ];
    let report = Report::from_entries(&entries).unwrap();
    let grid = report.weekly_grid(&date_of(&ymd(2023, 2, 16)));
    assert_eq!(grid.day_totals[0].total.hours, 500);
    assert_eq!(grid.day_totals[0].severity, Severity::Normal);
    assert_eq!(grid.day_totals[1].total.hours, 900);
    assert_eq!(grid.day_totals[1].severity, Severity::Warning);
    assert_eq!(grid.day_totals[2].total.hours, 1200);
    assert_eq!(grid.day_totals[2].severity, Severity::Overtime);
    assert_eq!(grid.day_totals[3].severity, Severity::Normal);
    assert!(grid.day_totals[3].total.blank);
}

#[test]
fn severity_limits_are_inclusive() {
    assert_eq!(classify(0), Severity::Normal);
    assert_eq!(classify(800), Severity::Normal);
    assert_eq!(classify(801), Severity::Warning);
    assert_eq!(classify(1000), Severity::Warning);
    assert_eq!(classify(1001), Severity::Overtime);
}

#[test]
fn weekly_grid_rows_and_columns_agree() {
    let entries = vec![
        time_entry(1, (1, "A"), (7, "beta"), 1.5, &ymd(2023, 2, 13)),
        time_entry(2, (1, "A"), (3, "Alpha"), 2.0, &ymd(2023, 2, 19)),
        time_entry(3, (1, "A"), (7, "beta"), 4.0, &ymd(2023, 2, 15)),
        time_entry(4, (1, "A"), (5, "Gamma"), 8.0, &ymd(2023, 2, 20)),
        time_entry(5, (1, "A"), (3, "Alpha"), 1.0, &ymd(2023, 2, 12)),
    ];
    let report = Report::from_entries(&entries).unwrap();
    let grid = report.weekly_grid(&date_of(&ymd(2023, 2, 15)));
    let by_rows: u64 = grid.rows.iter().map(|r| r.total.hours).sum();
    let by_days: u64 = grid.day_totals.iter().map(|d| d.total.hours).sum();
    assert_eq!(grid.grand_total, 750);
    assert_eq!(by_rows, 750);
    assert_eq!(by_days, 750);
    for row in &grid.rows {
        let cells: u64 = row.cells.iter().map(|c| c.hours).sum();
        assert_eq!(row.total.hours, cells);
    }
}

#[test]
fn weekly_grid_lists_every_project_ranked_by_name() {
    let entries = vec![
        time_entry(1, (1, "A"), (7, "beta"), 1.5, &ymd(2023, 2, 13)),
        time_entry(2, (1, "A"), (3, "Alpha"), 2.0, &ymd(2023, 2, 19)),
        time_entry(3, (1, "A"), (5, "Gamma"), 8.0, &ymd(2023, 3, 20)),
        time_entry(4, (1, "A"), (2, "Alpha"), 1.0, &ymd(2023, 2, 14)),
    ];
    let report = Report::from_entries(&entries).unwrap();
    let grid = report.weekly_grid(&date_of(&ymd(2023, 2, 13)));
    let order: Vec<(i32, String)> = grid
        .rows
        .iter()
        .map(|r| (r.project_id, r.name.clone()))
        .collect();
    assert_eq!(
        order,
        vec![
            (2, "Alpha".to_string()),
            (3, "Alpha".to_string()),
            (5, "Gamma".to_string()),
            (7, "beta".to_string()),
        ]
    );
    let gamma = &grid.rows[2];
    assert_eq!(gamma.total.hours, 0);
    assert!(gamma.total.blank);
    assert!(gamma.cells.iter().all(|c| c.hours == 0 && c.blank));
    assert_eq!(grid.rows[0].cells[1].hours, 100);
    assert_eq!(grid.rows[1].cells[6].hours, 200);
    assert_eq!(grid.days[0], date_of(&ymd(2023, 2, 13)));
    assert_eq!(grid.days[6], date_of(&ymd(2023, 2, 19)));
}

#[test]
fn building_twice_gives_the_same_results() {
    let entries = three_entries();
    let first = Report::from_entries(&entries).unwrap();
    let second = Report::from_entries(&entries).unwrap();
    let needle = date_of(&ymd(2022, 1, 4));
    assert_eq!(first.weekly_grid(&needle), second.weekly_grid(&needle));
    assert_eq!(first.weekly_grid(&needle), first.weekly_grid(&needle));
    for day in 1..=7 {
        let d = date_of(&ymd(2022, 1, day));
        assert_eq!(first.get_report_for_date(&d), second.get_report_for_date(&d));
    }
}

#[test]
fn zero_hours_are_kept_and_shown_blank() {
    let day = ymd(2023, 2, 14);
    let entries = vec![
        time_entry(1, (1, "A"), (1, "Alpha"), 0.0, &day),
        time_entry(2, (1, "A"), (2, "Beta"), 3.0, &day),
    ];
    let report = Report::from_entries(&entries).unwrap();
    let daily = report.get_report_for_date(&date_of(&day));
    assert_eq!(daily.entries().len(), 2);
    assert_eq!(daily.total_hours(), 300);
    assert_eq!(project_total(&report, 1), Some(0));
    let grid = report.weekly_grid(&date_of(&day));
    let alpha = &grid.rows[0];
    assert_eq!(alpha.project_id, 1);
    assert_eq!(alpha.cells[1].hours, 0);
    assert!(alpha.cells[1].blank);
    assert!(!grid.rows[1].cells[1].blank);
    assert_eq!(grid.grand_total, 300);
}

#[test]
fn malformed_date_fails_the_whole_report() {
    let mut entries = three_entries();
    entries[1].spent_on = "2022/01/03".to_string();
    entries[2].spent_on = "yesterday".to_string();
    assert_eq!(
        Report::from_entries(&entries).err(),
        Some(MalformedDate { index: 1 })
    );
}

#[test]
fn empty_input_gives_empty_report() {
    let report = Report::from_entries(&vec![]).unwrap();
    assert!(report.hours_per_project().is_empty());
    assert!(report.hours_at().is_empty());
    let grid = report.weekly_grid(&date_of(&ymd(2022, 1, 1)));
    assert!(grid.rows.is_empty());
    assert_eq!(grid.grand_total, 0);
    assert_eq!(grid.day_totals.len(), 7);
}

#[test]
fn project_name_is_the_first_given() {
    let day = ymd(2022, 1, 1);
    let mut unnamed = time_entry(1, (1, "A"), (9, "ignored"), 1.0, &day);
    unnamed.project.name = None;
    let entries = vec![
        unnamed,
        time_entry(2, (1, "A"), (9, "First"), 1.0, &day),
        time_entry(3, (1, "A"), (9, "Second"), 1.0, &day),
    ];
    let report = Report::from_entries(&entries).unwrap();
    assert_eq!(report.project_name(9), Some("First".to_string()));
    assert_eq!(report.project_name(4), None);
    assert_eq!(report.get_or_zero(&date_of(&day), 9), 300);
    assert_eq!(report.get_or_zero(&date_of(&day), 4), 0);
}

#[test]
fn project_without_any_name_is_shown_blank() {
    let day = ymd(2022, 1, 1);
    let mut unnamed = time_entry(1, (1, "A"), (9, "ignored"), 1.0, &day);
    unnamed.project.name = None;
    let entries = vec![unnamed, time_entry(2, (1, "A"), (4, "Named"), 1.0, &day)];
    let report = Report::from_entries(&entries).unwrap();
    let grid = report.weekly_grid(&date_of(&day));
    assert_eq!(grid.rows[0].project_id, 9);
    assert_eq!(grid.rows[0].name, "");
    assert_eq!(grid.rows[1].name, "Named");
}

#[test]
fn largest_total_that_fits() {
    let day = ymd(2022, 1, 3);
    let mut big = time_entry(1, (1, "A"), (1, "Alpha"), 0.0, &day);
    big.hours = u64::MAX - 1;
    let small = time_entry(2, (1, "A"), (2, "Beta"), 0.01, &day);
    let report = Report::from_entries(&vec![big, small]).unwrap();
    assert_eq!(report.hours_on_day(&date_of(&day)), u64::MAX);
    let grid = report.weekly_grid(&date_of(&day));
    assert_eq!(grid.grand_total, u64::MAX);
    assert_eq!(grid.day_totals[0].total.hours, u64::MAX);
    assert_eq!(grid.day_totals[0].severity, Severity::Overtime);
}
