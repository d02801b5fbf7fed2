//! The exchange in which one user puts a selection of dates together: the
//! selection is a draft until the user hands it in, and is dropped when the
//! time for it runs out.

use crate::calendar::{date_text, is_date, menu_date};
use crate::control::Control;
use crate::response::{copy_dates, Response, ResponseType};
use std::collections::HashSet;
use vstd::prelude::*;

verus! {

/// The seconds a session lasts, counted from its first presentation.
pub const RESPONSE_TIMEOUT: u64 = 840;

/// The most candidate dates that a session can present.
pub const MAX_ROWS: usize = 20;

/// Where a session stands.
#[derive(Clone, Copy, Debug, PartialEq, Eq, Structural)]
pub enum Phase {
    /// The selection is shown and nothing has been changed yet.
    Presenting,
    /// The draft has been changed at least once.
    Updating,
    /// The draft was handed in.
    Submitted,
    /// The time ran out before the draft was handed in.
    TimedOut,
}

/// What can happen to a session.
#[derive(Debug)]
pub enum Event {
    /// The candidate date at this index was picked: it enters the draft if
    /// it was not in it, and leaves it if it was.
    Select(usize),
    /// The menu reports the entries that are picked now: the draft becomes
    /// the candidate dates at these indices, however often one is named.
    Pick(Vec<usize>),
    /// Every offered date enters the draft.
    SelectAll,
    /// Every date leaves the draft.
    ClearAll,
    /// The draft is handed in.
    Submit,
    /// Nothing happened before the deadline.
    Timeout,
}

/// The moment at which a session that starts at `now` ends.
pub open spec fn deadline_after(now: u64) -> u64 {
    if now <= u64::MAX - RESPONSE_TIMEOUT {
        (now + RESPONSE_TIMEOUT) as u64
    } else {
        u64::MAX
    }
}

/// A draft with `day` put in if it was out, and taken out if it was in.
pub open spec fn toggled(draft: Set<i32>, day: i32) -> Set<i32> {
    if draft.contains(day) {
        draft.remove(day)
    } else {
        draft.insert(day)
    }
}

/// The candidate dates at the indices of `picks`.
pub open spec fn picked(dates: Seq<i32>, picks: Seq<usize>) -> Set<i32> {
    Set::new(
        |d: i32|
            exists|j: int|
                0 <= j < picks.len() && (#[trigger] picks[j]) < dates.len() && dates[picks[j] as int]
                    == d,
    )
}

/// A session as plain mathematical values.
#[verifier::ext_equal]
pub struct Flow {
    pub kind: ResponseType,
    pub user: u64,
    pub poll: u64,
    pub dates: Seq<i32>,
    pub blackout: Set<i32>,
    pub draft: Set<i32>,
    pub deadline: u64,
    pub phase: Phase,
}

impl Flow {
    /// Whether the session has ended.
    pub open spec fn finished(self) -> bool {
        self.phase == Phase::Submitted || self.phase == Phase::TimedOut
    }

    /// Whether the session offers `day`: a session for blackout dates
    /// offers every day, any other only the days that are not blacked out.
    pub open spec fn offers(self, day: i32) -> bool {
        self.kind == ResponseType::Blackout || !self.blackout.contains(day)
    }

    /// The candidate dates that the session offers.
    pub open spec fn all_offered(self) -> Set<i32> {
        Set::new(|d: i32| self.dates.contains(d) && self.offers(d))
    }

    /// The indices of the offered candidate dates, in order.
    pub open spec fn offered_indices(self) -> Seq<int> {
        Seq::new(self.dates.len(), |i: int| i).filter(|i: int| self.offers(self.dates[i]))
    }

    /// Whether `event` can be given to the session: what is picked has to
    /// name candidate dates.
    pub open spec fn accepts(self, event: Event) -> bool {
        match event {
            Event::Select(index) => index < self.dates.len(),
            Event::Pick(picks) => forall|j: int|
                0 <= j < picks@.len() ==> (#[trigger] picks@[j]) < self.dates.len(),
            _ => true,
        }
    }

    /// The session after `event`. A session that has ended stays as it is.
    pub open spec fn step(self, event: Event) -> Flow {
        if self.finished() {
            self
        } else {
            match event {
                Event::Select(index) => if index < self.dates.len() {
                    Flow {
                        draft: toggled(self.draft, self.dates[index as int]),
                        phase: Phase::Updating,
                        ..self
                    }
                } else {
                    self
                },
                Event::Pick(picks) => if self.accepts(event) {
                    Flow { draft: picked(self.dates, picks@), phase: Phase::Updating, ..self }
                } else {
                    self
                },
                Event::SelectAll => Flow {
                    draft: self.all_offered(),
                    phase: Phase::Updating,
                    ..self
                },
                Event::ClearAll => Flow { draft: Set::empty(), phase: Phase::Updating, ..self },
                Event::Submit => Flow { phase: Phase::Submitted, ..self },
                Event::Timeout => Flow { phase: Phase::TimedOut, ..self },
            }
        }
    }

    /// The session after the events of `events`, in order.
    pub open spec fn run(self, events: Seq<Event>) -> Flow
        decreases events.len(),
    {
        if events.len() == 0 {
            self
        } else {
            self.run(events.drop_last()).step(events.last())
        }
    }

    /// What the session commits: its draft where it was handed in, and
    /// nothing otherwise.
    pub open spec fn committed(self) -> Option<Set<i32>> {
        if self.phase == Phase::Submitted {
            Some(self.draft)
        } else {
            None
        }
    }

    /// The seconds left at `now` until the deadline.
    pub open spec fn remaining(self, now: u64) -> u64 {
        if now < self.deadline {
            (self.deadline - now) as u64
        } else {
            0
        }
    }
}

/// Whether `event` ends a session.
pub open spec fn ends(event: Event) -> bool {
    event is Submit || event is Timeout
}

/// A session that has ended takes no further events: whatever follows
/// leaves it as it is.
pub proof fn lemma_finished_stays(flow: Flow, events: Seq<Event>)
    requires
        flow.finished(),
    ensures
        flow.run(events) == flow,
    decreases events.len(),
{
    if events.len() > 0 {
        lemma_finished_stays(flow, events.drop_last());
    }
}

/// Events that do not end a session leave it running, and never move its
/// deadline, its dates or the user it belongs to.
pub proof fn lemma_running(flow: Flow, events: Seq<Event>)
    requires
        !flow.finished(),
        forall|k: int| 0 <= k < events.len() ==> !ends(#[trigger] events[k]),
    ensures
        !flow.run(events).finished(),
        flow.run(events).deadline == flow.deadline,
        flow.run(events).dates == flow.dates,
        flow.run(events).blackout == flow.blackout,
        flow.run(events).kind == flow.kind,
        flow.run(events).user == flow.user,
        flow.run(events).poll == flow.poll,
    decreases events.len(),
{
    if events.len() > 0 {
        let before = events.drop_last();
        assert forall|k: int| 0 <= k < before.len() implies !ends(#[trigger] before[k]) by {
            assert(before[k] == events[k]);
        }
        lemma_running(flow, before);
        assert(!ends(events[events.len() - 1]));
    }
}

/// A session that is handed in commits exactly the draft that its
/// transitions produced last, whatever came after the hand-in.
pub proof fn lemma_submit_commits_last_draft(flow: Flow, events: Seq<Event>, later: Seq<Event>)
    requires
        !flow.finished(),
        forall|k: int| 0 <= k < events.len() ==> !ends(#[trigger] events[k]),
    ensures
        flow.run(events.push(Event::Submit) + later).phase == Phase::Submitted,
        flow.run(events.push(Event::Submit) + later).committed() == Some(flow.run(events).draft),
    decreases later.len(),
{
    let handed = events.push(Event::Submit);
    lemma_running(flow, events);
    assert(handed.drop_last() =~= events);
    assert(flow.run(handed) == flow.run(events).step(Event::Submit));
    if later.len() == 0 {
        assert(handed + later =~= handed);
    } else {
        lemma_submit_commits_last_draft(flow, events, later.drop_last());
        assert((handed + later).drop_last() =~= handed + later.drop_last());
    }
}

/// A session whose time runs out commits nothing, whatever comes after.
pub proof fn lemma_timeout_commits_nothing(flow: Flow, events: Seq<Event>, later: Seq<Event>)
    requires
        !flow.finished(),
        forall|k: int| 0 <= k < events.len() ==> !ends(#[trigger] events[k]),
    ensures
        flow.run(events.push(Event::Timeout) + later).phase == Phase::TimedOut,
        flow.run(events.push(Event::Timeout) + later).committed() is None,
    decreases later.len(),
{
    let expired = events.push(Event::Timeout);
    lemma_running(flow, events);
    assert(expired.drop_last() =~= events);
    assert(flow.run(expired) == flow.run(events).step(Event::Timeout));
    if later.len() == 0 {
        assert(expired + later =~= expired);
    } else {
        lemma_timeout_commits_nothing(flow, events, later.drop_last());
        assert((expired + later).drop_last() =~= expired + later.drop_last());
    }
}

/// What the use of `control` means to a session, where `picks` are the
/// entries that the menu reports: a button is one event, and so is a report
/// of the menu. Controls that belong to no session mean nothing.
pub open spec fn event_of(control: Control, picks: Vec<usize>) -> Option<Event> {
    match control {
        Control::Submit => Some(Event::Submit),
        Control::SelectAll => Some(Event::SelectAll),
        Control::ClearAll => Some(Event::ClearAll),
        Control::Select => Some(Event::Pick(picks)),
        _ => None,
    }
}

/// One entry of the menu of dates.
#[derive(Debug)]
pub struct MenuOption {
    /// The index of the date among the candidate dates.
    pub index: usize,
    /// The date as the menu shows it.
    pub label: String,
    /// Whether the date is in the draft.
    pub selected: bool,
}

/// What a session shows: the menu of offered dates and the buttons.
#[derive(Debug)]
pub struct Menu {
    pub options: Vec<MenuOption>,
    /// The most entries that can be picked at once.
    pub max_values: usize,
    pub controls: Vec<Control>,
}

/// The buttons of a session: one for blackout dates only hands in.
pub open spec fn session_controls(kind: ResponseType) -> Seq<Control> {
    if kind == ResponseType::Blackout {
        seq![Control::Submit]
    } else {
        seq![Control::SelectAll, Control::ClearAll, Control::Submit]
    }
}

/// A session.
pub struct Session {
    kind: ResponseType,
    user: u64,
    poll: u64,
    dates: Vec<i32>,
    blackout: HashSet<i32>,
    draft: HashSet<i32>,
    deadline: u64,
    phase: Phase,
}

impl View for Session {
    type V = Flow;

    closed spec fn view(&self) -> Flow {
        Flow {
            kind: self.kind,
            user: self.user,
            poll: self.poll,
            dates: self.dates@,
            blackout: self.blackout@,
            draft: self.draft@,
            deadline: self.deadline,
            phase: self.phase,
        }
    }
}

impl Session {
    /// The invariant of a session: its candidate dates are dates.
    pub open spec fn wf(&self) -> bool {
        forall|k: int| 0 <= k < self@.dates.len() ==> is_date(#[trigger] self@.dates[k] as int)
    }

    /// Starts a session at `now`, with `seed` as its first draft.
    pub fn begin(
        kind: ResponseType,
        user: u64,
        poll: u64,
        dates: Vec<i32>,
        blackout: HashSet<i32>,
        seed: Response,
        now: u64,
    ) -> (session: Session)
        requires
            forall|k: int| 0 <= k < dates.len() ==> is_date(#[trigger] dates@[k] as int),
        ensures
            session.wf(),
            session@ == (Flow {
                kind,
                user,
                poll,
                dates: dates@,
                blackout: blackout@,
                draft: seed@,
                deadline: deadline_after(now),
                phase: Phase::Presenting,
            }),
    {
        let deadline = if now <= u64::MAX - RESPONSE_TIMEOUT {
            now + RESPONSE_TIMEOUT
        } else {
            u64::MAX
        };
        Session {
            kind,
            user,
            poll,
            dates,
            blackout,
            draft: seed.dates,
            deadline,
            phase: Phase::Presenting,
        }
    }

    /// What the selection is collected for.
    pub fn kind(&self) -> (kind: ResponseType)
        ensures
            kind == self@.kind,
    {
        self.kind
    }

    /// The user the session belongs to.
    pub fn user(&self) -> (user: u64)
        ensures
            user == self@.user,
    {
        self.user
    }

    /// The poll the session belongs to.
    pub fn poll(&self) -> (poll: u64)
        ensures
            poll == self@.poll,
    {
        self.poll
    }

    /// Where the session stands.
    pub fn phase(&self) -> (phase: Phase)
        ensures
            phase == self@.phase,
    {
        self.phase
    }

    /// Whether the session has ended.
    pub fn is_finished(&self) -> (finished: bool)
        ensures
            finished == self@.finished(),
    {
        self.phase == Phase::Submitted || self.phase == Phase::TimedOut
    }

    /// The seconds that are left at `now` to wait for the next event. The
    /// deadline is the one set at the start: no event moves it.
    pub fn remaining(&self, now: u64) -> (left: u64)
        ensures
            left == self@.remaining(now),
    {
        if now < self.deadline {
            self.deadline - now
        } else {
            0
        }
    }

    /// Whether the session takes what `user` does: it takes what its own
    /// user does, and nothing else.
    pub fn accepts_from(&self, user: u64) -> (accepted: bool)
        ensures
            accepted == (user == self@.user),
    {
        user == self.user
    }

    /// Whether each index of `picks` names a candidate date.
    fn names_dates(&self, picks: &Vec<usize>) -> (named: bool)
        ensures
            named == forall|j: int|
                0 <= j < picks@.len() ==> (#[trigger] picks@[j]) < self@.dates.len(),
    {
        let mut k: usize = 0;
        while k < picks.len()
            invariant
                k <= picks.len(),
                forall|j: int| 0 <= j < k ==> (#[trigger] picks@[j]) < self@.dates.len(),
            decreases picks.len() - k,
        {
            if picks[k] >= self.dates.len() {
                assert(!((#[trigger] picks@[k as int]) < self@.dates.len()));
                return false;
            }
            k = k + 1;
        }
        true
    }

    /// Whether `event` can be given to the session.
    pub fn accepts(&self, event: &Event) -> (accepted: bool)
        ensures
            accepted == self@.accepts(*event),
    {
        match event {
            Event::Select(index) => *index < self.dates.len(),
            Event::Pick(picks) => self.names_dates(picks),
            _ => true,
        }
    }

    /// Takes `event` into the session.
    pub fn handle(&mut self, event: Event)
        requires
            old(self).wf(),
            old(self)@.accepts(event),
        ensures
            final(self).wf(),
            final(self)@ == old(self)@.step(event),
    {
        broadcast use vstd::std_specs::hash::group_hash_axioms;

        if self.phase == Phase::Submitted || self.phase == Phase::TimedOut {
            return ;
        }
        match event {
            Event::Select(index) => {
                let day = self.dates[index];
                if self.draft.contains(&day) {
                    self.draft.remove(&day);
                } else {
                    self.draft.insert(day);
                }
                self.phase = Phase::Updating;
            },
            Event::Pick(picks) => {
                self.draft.clear();
                let mut k: usize = 0;
                while k < picks.len()
                    invariant
                        k <= picks.len(),
                        self.dates == old(self).dates,
                        self.blackout == old(self).blackout,
                        self.kind == old(self).kind,
                        self.user == old(self).user,
                        self.poll == old(self).poll,
                        self.deadline == old(self).deadline,
                        self.phase == old(self).phase,
                        forall|j: int|
                            0 <= j < picks@.len() ==> (#[trigger] picks@[j]) < self.dates@.len(),
                        self.draft@ == picked(self.dates@, picks@.take(k as int)),
                    decreases picks.len() - k,
                {
                    let day = self.dates[picks[k]];
                    let ghost before = self.draft@;
                    self.draft.insert(day);
                    proof {
                        let dates = self.dates@;
                        let seen = picks@.take(k as int);
                        let more = picks@.take(k + 1);
                        assert forall|d: i32| before.insert(day).contains(d) <==> picked(
                            dates,
                            more,
                        ).contains(d) by {
                            if before.contains(d) {
                                let j = choose|j: int|
                                    0 <= j < seen.len() && (#[trigger] seen[j]) < dates.len()
                                        && dates[seen[j] as int] == d;
                                assert(more[j] == seen[j]);
                            }
                            if d == day {
                                assert(more[k as int] == picks@[k as int]);
                            }
                            if picked(dates, more).contains(d) {
                                let j = choose|j: int|
                                    0 <= j < more.len() && (#[trigger] more[j]) < dates.len()
                                        && dates[more[j] as int] == d;
                                if j < k {
                                    assert(seen[j] == more[j]);
                                }
                            }
                        }
                        assert(self.draft@ =~= picked(dates, more));
                    }
                    k = k + 1;
                }
                self.phase = Phase::Updating;
                assert(picks@.take(k as int) =~= picks@);
            },
            Event::SelectAll => {
                self.draft.clear();
                let mut i: usize = 0;
                while i < self.dates.len()
                    invariant
                        i <= self.dates.len(),
                        self.dates == old(self).dates,
                        self.blackout == old(self).blackout,
                        self.kind == old(self).kind,
                        self.user == old(self).user,
                        self.poll == old(self).poll,
                        self.deadline == old(self).deadline,
                        self.phase == old(self).phase,
                        forall|d: i32|
                            self.draft@.contains(d) <==> exists|j: int|
                                0 <= j < i && #[trigger] self.dates@[j] == d && old(self)@.offers(
                                    d,
                                ),
                    decreases self.dates.len() - i,
                {
                    let day = self.dates[i];
                    let ghost before = self.draft@;
                    let offered = match self.kind {
                        ResponseType::Blackout => true,
                        ResponseType::Normal => !self.blackout.contains(&day),
                    };
                    if offered {
                        self.draft.insert(day);
                    }
                    proof {
                        let dates = self.dates@;
                        let flow = old(self)@;
                        assert(offered == flow.offers(day));
                        assert forall|d: i32|
                            self.draft@.contains(d) <==> exists|j: int|
                                0 <= j < i + 1 && #[trigger] dates[j] == d && flow.offers(
                                    d,
                                ) by {
                            if self.draft@.contains(d) {
                                if before.contains(d) {
                                    let j = choose|j: int|
                                        0 <= j < i && #[trigger] dates[j] == d && flow.offers(d);
                                    assert(0 <= j < i + 1 && dates[j] == d && flow.offers(d));
                                } else {
                                    assert(dates[i as int] == d && flow.offers(d));
                                }
                            }
                            if exists|j: int|
                                0 <= j < i + 1 && #[trigger] dates[j] == d && flow.offers(d) {
                                let j = choose|j: int|
                                    0 <= j < i + 1 && #[trigger] dates[j] == d && flow.offers(d);
                                if j < i {
                                    assert(0 <= j < i && dates[j] == d && flow.offers(d));
                                    assert(before.contains(d));
                                }
                            }
                        }
                    }
                    i = i + 1;
                }
                self.phase = Phase::Updating;
                proof {
                    let dates = self.dates@;
                    let flow = old(self)@;
                    assert forall|d: i32| self.draft@.contains(d) <==> flow.all_offered().contains(
                        d,
                    ) by {
                        if dates.contains(d) && flow.offers(d) {
                            let j = choose|j: int| 0 <= j < dates.len() && dates[j] == d;
                            assert(0 <= j < i && dates[j] == d && flow.offers(d));
                        }
                    }
                    assert(self.draft@ =~= flow.all_offered());
                }
            },
            Event::ClearAll => {
                self.draft.clear();
                self.phase = Phase::Updating;
            },
            Event::Submit => {
                self.phase = Phase::Submitted;
            },
            Event::Timeout => {
                self.phase = Phase::TimedOut;
            },
        }
    }

    /// Takes the use of `control` into the session, with the entries
    /// `picks` where the control is the menu. Refuses, and changes nothing,
    /// where the control belongs to no session or an entry names no
    /// candidate date.
    pub fn act(&mut self, control: Control, picks: Vec<usize>) -> (accepted: bool)
        requires
            old(self).wf(),
        ensures
            final(self).wf(),
            accepted == (event_of(control, picks) matches Some(event) && old(self)@.accepts(event)),
            accepted ==> final(self)@ == old(self)@.step(event_of(control, picks)->0),
            !accepted ==> final(self)@ == old(self)@,
    {
        let event = match control {
            Control::Submit => Event::Submit,
            Control::SelectAll => Event::SelectAll,
            Control::ClearAll => Event::ClearAll,
            Control::Select => Event::Pick(picks),
            _ => {
                return false;
            },
        };
        if !self.accepts(&event) {
            return false;
        }
        self.handle(event);
        true
    }

    /// What the session shows: an entry for each offered candidate date,
    /// marked where the date is in the draft, and the buttons.
    pub fn menu(&self) -> (menu: Menu)
        requires
            self.wf(),
        ensures
            menu.options.len() == self@.offered_indices().len(),
            forall|k: int|
                0 <= k < menu.options.len() ==> {
                    let option = #[trigger] menu.options@[k];
                    &&& option.index == self@.offered_indices()[k]
                    &&& option.index < self@.dates.len()
                    &&& option.label@ == date_text(
                        self@.dates[option.index as int] as int,
                        "%a %b %d"@,
                    )
                    &&& option.selected == self@.draft.contains(self@.dates[option.index as int])
                },
            menu.max_values == menu.options.len(),
            menu.controls@ == session_controls(self@.kind),
    {
        broadcast use vstd::std_specs::hash::group_hash_axioms;

        let ghost flow = self@;
        let ghost all = Seq::new(flow.dates.len(), |i: int| i);
        let ghost keep = |i: int| flow.offers(flow.dates[i]);
        let mut options: Vec<MenuOption> = Vec::new();
        let ghost mut indices: Seq<int> = Seq::empty();
        proof {
            assert(all.take(0).filter(keep) =~= Seq::<int>::empty()) by {
                reveal(Seq::filter);
            }
        }
        let mut i: usize = 0;
        while i < self.dates.len()
            invariant
                i <= self.dates.len(),
                self.wf(),
                flow == self@,
                all == Seq::new(flow.dates.len(), |i: int| i),
                keep == (|i: int| flow.offers(flow.dates[i])),
                indices == all.take(i as int).filter(keep),
                options.len() == indices.len(),
                forall|k: int|
                    0 <= k < options.len() ==> {
                        let option = #[trigger] options@[k];
                        &&& option.index == indices[k]
                        &&& option.index < flow.dates.len()
                        &&& option.label@ == date_text(
                            flow.dates[option.index as int] as int,
                            "%a %b %d"@,
                        )
                        &&& option.selected == flow.draft.contains(
                            flow.dates[option.index as int],
                        )
                    },
            decreases self.dates.len() - i,
        {
            let day = self.dates[i];
            let offered = match self.kind {
                ResponseType::Blackout => true,
                ResponseType::Normal => !self.blackout.contains(&day),
            };
            proof {
                assert(all.take(i + 1) =~= all.take(i as int).push(i as int));
                all.take(i as int).lemma_filter_push(i as int, keep);
            }
            if offered {
                options.push(
                    MenuOption {
                        index: i,
                        label: menu_date(day),
                        selected: self.draft.contains(&day),
                    },
                );
                proof {
                    indices = indices.push(i as int);
                }
            }
            i = i + 1;
        }
        proof {
            assert(all.take(i as int) =~= all);
        }
        let mut controls: Vec<Control> = Vec::new();
        match self.kind {
            ResponseType::Blackout => {},
            ResponseType::Normal => {
                controls.push(Control::SelectAll);
                controls.push(Control::ClearAll);
            },
        }
        controls.push(Control::Submit);
        assert(controls@ =~= session_controls(self@.kind));
        let max_values = options.len();
        Menu { options, max_values, controls }
    }

    /// The words that take the place of the menu once the session has
    /// ended, and nothing while it runs.
    pub fn notice(&self) -> (words: Option<&'static str>)
        ensures
            self@.phase == Phase::Submitted ==> (words matches Some(w) && w@
                == "Response submitted"@),
            self@.phase == Phase::TimedOut ==> (words matches Some(w) && w@
                == "Response timed out"@),
            !self@.finished() ==> words is None,
    {
        match self.phase {
            Phase::Submitted => Some("Response submitted"),
            Phase::TimedOut => Some("Response timed out"),
            _ => None,
        }
    }

    /// The draft as it stands.
    pub fn draft(&self) -> (draft: Response)
        ensures
            draft@ == self@.draft,
    {
        Response { dates: copy_dates(&self.draft) }
    }

    /// Ends the session's life: the response it commits, where it was
    /// handed in, and nothing where it was not.
    pub fn into_response(self) -> (response: Option<Response>)
        ensures
            response is Some <==> self@.phase == Phase::Submitted,
            response matches Some(r) ==> self@.committed() == Some(r@),
    {
        match self.phase {
            Phase::Submitted => Some(Response { dates: self.draft }),
            _ => None,
        }
    }
}

} // verus!
