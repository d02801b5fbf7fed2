use scheduler::calendar::{Weekday, MAX_WEEKS};
use scheduler::command::{add_named, is_schedule_command, parse_days, plan};
use scheduler::control::{Control, UnknownControl};

const WEEK: [Weekday; 7] = [
    Weekday::Mon,
    Weekday::Tue,
    Weekday::Wed,
    Weekday::Thu,
    Weekday::Fri,
    Weekday::Sat,
    Weekday::Sun,
];

fn chosen(text: &str) -> Option<Vec<Weekday>> {
    let days = parse_days(text)?;
    Some(WEEK.iter().copied().filter(|w| days.contains(*w)).collect())
}

#[test]
fn weekdays_are_read_from_their_names() {
    assert_eq!(chosen("Sat+Sun"), Some(vec![Weekday::Sat, Weekday::Sun]));
    assert_eq!(chosen("Sat"), Some(vec![Weekday::Sat]));
    assert_eq!(chosen("Sun"), Some(vec![Weekday::Sun]));
    assert_eq!(chosen("sunday+MON+wed"), Some(vec![Weekday::Mon, Weekday::Wed, Weekday::Sun]));
    assert_eq!(chosen("Fri+Fri"), Some(vec![Weekday::Fri]));
}

#[test]
fn unreadable_weekdays_are_refused() {
    assert_eq!(chosen(""), None);
    assert_eq!(chosen("Sat+"), None);
    assert_eq!(chosen("+Sat"), None);
    assert_eq!(chosen("Sat++Sun"), None);
    assert_eq!(chosen("Sat + Sun"), None);
    assert_eq!(chosen("thurs"), None);
    assert_eq!(chosen("Caturday"), None);
}

#[test]
fn adding_a_named_day() {
    let days = parse_days("Sat");
    let more = add_named(days, Some(Weekday::Mon)).unwrap();
    assert!(more.contains(Weekday::Mon) && more.contains(Weekday::Sat));
    assert!(add_named(days, None).is_none());
    assert!(add_named(None, Some(Weekday::Mon)).is_none());
}

#[test]
fn a_request_without_options_takes_the_defaults() {
    let p = plan(None, None, None).unwrap();
    assert_eq!(p.weeks, MAX_WEEKS);
    assert_eq!(p.weeks, 10);
    assert_eq!(p.skip, None);
    assert!(p.days.contains(Weekday::Sat) && p.days.contains(Weekday::Sun));
    assert!(!p.days.contains(Weekday::Fri));
}

#[test]
fn a_request_with_options_keeps_them() {
    let p = plan(Some(3), Some(2), Some("Sun")).unwrap();
    assert_eq!(p.weeks, 3);
    assert_eq!(p.skip, Some(2));
    assert!(p.days.contains(Weekday::Sun) && !p.days.contains(Weekday::Sat));
    assert!(plan(Some(3), Some(2), Some("Sun+")).is_none());
}

#[test]
fn the_command_has_one_name() {
    assert!(is_schedule_command("schedule"));
    assert!(!is_schedule_command("Schedule"));
    assert!(!is_schedule_command(""));
}

#[test]
fn controls_are_known_by_their_identifiers() {
    let all = [
        Control::Respond,
        Control::Details,
        Control::Blackout,
        Control::Select,
        Control::SelectAll,
        Control::ClearAll,
        Control::Submit,
    ];
    for c in all {
        assert_eq!(Control::decode(c.custom_id()), Ok(c));
    }
    assert_eq!(Control::Respond.custom_id(), "response");
    assert_eq!(Control::Details.custom_id(), "details");
    assert_eq!(Control::Blackout.custom_id(), "blackout");
    assert_eq!(Control::Select.custom_id(), "select");
    assert_eq!(Control::SelectAll.custom_id(), "select_all");
    assert_eq!(Control::ClearAll.custom_id(), "clear_all");
    assert_eq!(Control::Submit.custom_id(), "submit");
    assert_eq!(Control::decode("cancel"), Err(UnknownControl));
    assert_eq!(Control::decode(""), Err(UnknownControl));
    assert_eq!(Control::decode("Submit"), Err(UnknownControl));
}

#[test]
fn controls_have_their_words() {
    assert_eq!(Control::Respond.label_text(), "Add response");
    assert_eq!(Control::Details.label_text(), "Show details");
    assert_eq!(Control::Blackout.label_text(), "Add blackout dates");
    assert_eq!(Control::SelectAll.label_text(), "Select all");
    assert_eq!(Control::ClearAll.label_text(), "Clear all");
    assert_eq!(Control::Submit.label_text(), "Submit");
    assert_eq!(Control::Select.label_text(), "");
}
