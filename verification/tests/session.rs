use scheduler::control::Control;
use scheduler::response::{Response, ResponseType};
use scheduler::session::{Event, Phase, Session, MAX_ROWS, RESPONSE_TIMEOUT};
use std::collections::HashSet;

// 2022-01-01, a Saturday, and the three days after it.
const SAT: i32 = 738_156;
const DATES: [i32; 4] = [SAT, SAT + 1, SAT + 7, SAT + 8];

fn set(days: &[i32]) -> HashSet<i32> {
    days.iter().copied().collect()
}

fn start(kind: ResponseType, blackout: &[i32], seed: &[i32]) -> Session {
    Session::begin(kind, 1, 900, DATES.to_vec(), set(blackout), Response::from_days(&seed.to_vec()), 100)
}

#[test]
fn a_session_starts_presenting_its_seed() {
    let session = start(ResponseType::Normal, &[], &[SAT]);
    assert_eq!(session.phase(), Phase::Presenting);
    assert!(!session.is_finished());
    assert_eq!(session.draft().dates, set(&[SAT]));
    assert_eq!(session.kind(), ResponseType::Normal);
    assert_eq!(session.user(), 1);
    assert_eq!(session.poll(), 900);
    assert!(session.notice().is_none());
}

#[test]
fn a_pick_puts_a_date_in_and_takes_it_out() {
    let mut session = start(ResponseType::Normal, &[], &[]);
    session.handle(Event::Select(2));
    assert_eq!(session.phase(), Phase::Updating);
    assert_eq!(session.draft().dates, set(&[SAT + 7]));
    session.handle(Event::Select(0));
    assert_eq!(session.draft().dates, set(&[SAT, SAT + 7]));
    session.handle(Event::Select(2));
    assert_eq!(session.draft().dates, set(&[SAT]));
    session.handle(Event::Select(0));
    assert!(session.draft().dates.is_empty());
    assert_eq!(session.phase(), Phase::Updating);
}

#[test]
fn select_all_leaves_blackout_dates_out_of_a_response() {
    let mut session = start(ResponseType::Normal, &[SAT + 1, SAT + 100], &[SAT + 1]);
    session.handle(Event::SelectAll);
    assert_eq!(session.draft().dates, set(&[SAT, SAT + 7, SAT + 8]));
    assert_eq!(session.phase(), Phase::Updating);
}

#[test]
fn select_all_takes_every_date_for_blackout_dates() {
    let mut session = start(ResponseType::Blackout, &[SAT + 1], &[]);
    session.handle(Event::SelectAll);
    assert_eq!(session.draft().dates, set(&DATES));
}

#[test]
fn clear_all_empties_the_draft() {
    let mut session = start(ResponseType::Normal, &[], &[SAT, SAT + 1, SAT + 500]);
    session.handle(Event::ClearAll);
    assert!(session.draft().dates.is_empty());
    assert_eq!(session.phase(), Phase::Updating);
}

#[test]
fn a_session_that_is_handed_in_commits_its_last_draft() {
    let mut session = start(ResponseType::Normal, &[], &[SAT]);
    session.handle(Event::ClearAll);
    session.handle(Event::Select(1));
    session.handle(Event::Select(3));
    session.handle(Event::Submit);
    assert_eq!(session.phase(), Phase::Submitted);
    assert!(session.is_finished());
    assert_eq!(session.notice(), Some("Response submitted"));
    // Nothing is taken after the end.
    session.handle(Event::ClearAll);
    session.handle(Event::Select(0));
    session.handle(Event::Timeout);
    assert_eq!(session.phase(), Phase::Submitted);
    let response = session.into_response().unwrap();
    assert_eq!(response.dates, set(&[SAT + 1, SAT + 8]));
}

#[test]
fn a_session_handed_in_at_once_commits_its_seed() {
    let mut session = start(ResponseType::Normal, &[], &[SAT, SAT + 300]);
    session.handle(Event::Submit);
    assert_eq!(session.into_response().unwrap().dates, set(&[SAT, SAT + 300]));
}

#[test]
fn a_session_that_times_out_commits_nothing() {
    let mut session = start(ResponseType::Normal, &[], &[SAT]);
    session.handle(Event::SelectAll);
    session.handle(Event::Timeout);
    assert_eq!(session.phase(), Phase::TimedOut);
    assert!(session.is_finished());
    assert_eq!(session.notice(), Some("Response timed out"));
    session.handle(Event::Submit);
    assert_eq!(session.phase(), Phase::TimedOut);
    assert!(session.into_response().is_none());
}

#[test]
fn a_running_session_commits_nothing() {
    let mut session = start(ResponseType::Normal, &[], &[SAT]);
    session.handle(Event::SelectAll);
    assert!(session.into_response().is_none());
    assert!(start(ResponseType::Normal, &[], &[SAT]).into_response().is_none());
}

#[test]
fn the_deadline_is_fourteen_minutes_after_the_start_and_does_not_move() {
    assert_eq!(RESPONSE_TIMEOUT, 14 * 60);
    let mut session = start(ResponseType::Normal, &[], &[]);
    assert_eq!(session.remaining(100), 840);
    assert_eq!(session.remaining(400), 540);
    session.handle(Event::Select(0));
    session.handle(Event::SelectAll);
    assert_eq!(session.remaining(400), 540);
    assert_eq!(session.remaining(939), 1);
    assert_eq!(session.remaining(940), 0);
    assert_eq!(session.remaining(5000), 0);
    assert_eq!(session.remaining(0), 940);
}

#[test]
fn a_start_at_the_end_of_time_has_the_last_moment_as_deadline() {
    let session = Session::begin(
        ResponseType::Normal,
        1,
        900,
        DATES.to_vec(),
        HashSet::new(),
        Response::new(),
        u64::MAX - 10,
    );
    assert_eq!(session.remaining(u64::MAX - 10), 10);
    let session = Session::begin(
        ResponseType::Normal,
        1,
        900,
        DATES.to_vec(),
        HashSet::new(),
        Response::new(),
        u64::MAX - 840,
    );
    assert_eq!(session.remaining(u64::MAX - 840), 840);
}

#[test]
fn the_menu_of_a_response_leaves_blackout_dates_out() {
    let session = start(ResponseType::Normal, &[SAT + 1], &[SAT, SAT + 1]);
    let menu = session.menu();
    let indices: Vec<usize> = menu.options.iter().map(|o| o.index).collect();
    let labels: Vec<&str> = menu.options.iter().map(|o| o.label.as_str()).collect();
    let selected: Vec<bool> = menu.options.iter().map(|o| o.selected).collect();
    assert_eq!(indices, vec![0, 2, 3]);
    assert_eq!(labels, vec!["Sat Jan 01", "Sat Jan 08", "Sun Jan 09"]);
    assert_eq!(selected, vec![true, false, false]);
    assert_eq!(menu.max_values, 3);
    assert_eq!(menu.controls, vec![Control::SelectAll, Control::ClearAll, Control::Submit]);
}

#[test]
fn the_menu_of_blackout_dates_offers_every_date() {
    let session = start(ResponseType::Blackout, &[SAT + 1], &[SAT + 1]);
    let menu = session.menu();
    let indices: Vec<usize> = menu.options.iter().map(|o| o.index).collect();
    let selected: Vec<bool> = menu.options.iter().map(|o| o.selected).collect();
    assert_eq!(indices, vec![0, 1, 2, 3]);
    assert_eq!(selected, vec![false, true, false, false]);
    assert_eq!(menu.options[1].label, "Sun Jan 02");
    assert_eq!(menu.max_values, 4);
    assert_eq!(menu.controls, vec![Control::Submit]);
}

#[test]
fn the_menu_follows_the_draft() {
    let mut session = start(ResponseType::Normal, &[], &[]);
    session.handle(Event::Select(3));
    let selected: Vec<bool> = session.menu().options.iter().map(|o| o.selected).collect();
    assert_eq!(selected, vec![false, false, false, true]);
    session.handle(Event::SelectAll);
    let selected: Vec<bool> = session.menu().options.iter().map(|o| o.selected).collect();
    assert_eq!(selected, vec![true, true, true, true]);
}

#[test]
fn a_session_presents_at_most_twenty_dates() {
    assert_eq!(MAX_ROWS, 20);
}

#[test]
fn a_session_takes_only_what_its_user_does() {
    let session = start(ResponseType::Normal, &[], &[]);
    assert!(session.accepts_from(1));
    assert!(!session.accepts_from(2));
}

#[test]
fn a_pick_has_to_name_a_candidate_date() {
    let session = start(ResponseType::Normal, &[SAT], &[]);
    assert!(session.accepts(&Event::Select(0)));
    assert!(session.accepts(&Event::Select(3)));
    assert!(!session.accepts(&Event::Select(4)));
    assert!(!session.accepts(&Event::Select(usize::MAX)));
    assert!(session.accepts(&Event::SelectAll));
    assert!(session.accepts(&Event::ClearAll));
    assert!(session.accepts(&Event::Submit));
    assert!(session.accepts(&Event::Timeout));
    assert!(session.accepts(&Event::Pick(vec![])));
    assert!(session.accepts(&Event::Pick(vec![0, 3, 3])));
    assert!(!session.accepts(&Event::Pick(vec![0, 4])));
}

#[test]
fn the_menu_reports_everything_that_is_picked() {
    let mut session = start(ResponseType::Normal, &[], &[SAT, SAT + 300]);
    assert!(session.act(Control::Select, vec![1, 3]));
    assert_eq!(session.draft().dates, set(&[SAT + 1, SAT + 8]));
    assert_eq!(session.phase(), Phase::Updating);
    assert!(session.act(Control::Select, vec![]));
    assert!(session.draft().dates.is_empty());
    // An entry that names no candidate date is refused, and nothing changes.
    assert!(session.act(Control::Select, vec![2]));
    assert!(!session.act(Control::Select, vec![0, 4]));
    assert_eq!(session.draft().dates, set(&[SAT + 7]));
}

#[test]
fn the_buttons_of_a_session_are_taken() {
    let mut session = start(ResponseType::Normal, &[SAT], &[]);
    assert!(session.act(Control::SelectAll, vec![]));
    assert_eq!(session.draft().dates, set(&[SAT + 1, SAT + 7, SAT + 8]));
    assert!(session.act(Control::ClearAll, vec![]));
    assert!(session.draft().dates.is_empty());
    assert!(session.act(Control::Select, vec![0]));
    assert!(session.act(Control::Submit, vec![]));
    assert_eq!(session.phase(), Phase::Submitted);
    // After the end the controls are taken and change nothing.
    assert!(session.act(Control::ClearAll, vec![]));
    assert_eq!(session.into_response().unwrap().dates, set(&[SAT]));
}

#[test]
fn controls_of_the_summary_mean_nothing_to_a_session() {
    let mut session = start(ResponseType::Normal, &[], &[SAT]);
    for control in [Control::Respond, Control::Details, Control::Blackout] {
        assert!(!session.act(control, vec![0]));
    }
    assert_eq!(session.phase(), Phase::Presenting);
    assert_eq!(session.draft().dates, set(&[SAT]));
}

#[test]
fn an_entry_that_the_menu_names_twice_is_picked_once() {
    let mut session = start(ResponseType::Normal, &[], &[SAT + 7]);
    assert!(session.act(Control::Select, vec![1, 1]));
    assert_eq!(session.draft().dates, set(&[SAT + 1]));
    assert!(session.act(Control::Select, vec![3, 0, 3, 0, 3]));
    assert_eq!(session.draft().dates, set(&[SAT, SAT + 8]));
    session.handle(Event::Pick(vec![2, 2]));
    assert_eq!(session.draft().dates, set(&[SAT + 7]));
    assert_eq!(session.phase(), Phase::Updating);
    // A single pick still puts a date in and takes it out.
    session.handle(Event::Select(2));
    assert!(session.draft().dates.is_empty());
}

#[test]
fn a_report_of_the_menu_after_the_end_changes_nothing() {
    let mut session = start(ResponseType::Normal, &[], &[SAT]);
    session.handle(Event::Timeout);
    session.handle(Event::Pick(vec![1, 2]));
    assert_eq!(session.phase(), Phase::TimedOut);
    assert_eq!(session.draft().dates, set(&[SAT]));
}
